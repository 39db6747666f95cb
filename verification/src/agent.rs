//! The agentic transpiler loop: a [`CodeAgent`] proposes a function body,
//! the verifier checks it against the function's contract, and on failure a
//! counter-example goes back to the agent, which rewrites the body; this
//! repeats until the contract holds or the loop gives up.

use vstd::prelude::*;
use crate::ast::{Attribute, Func, Module, Item, Stmt, IfStmt, Assign, AssignOp, Type, Pattern, MatchArm};
use crate::ir::VerificationProblem;
use crate::extract::{
    ConV, cons_view, con_view, with_body, frames_ok, func_ok, func_problems, problem_view, item_invs,
    branch_count, lemma_problem_count, build_problems, module_invs,
};
use crate::verify::{verify, VerificationResult, checks_view, expected_checks, all_passed_spec};
use crate::solver::{Model, counterexample, negation, all_hold, model_val};
use crate::router::{Target, route, target_spec};
use crate::tree::{eq_stmts, copy_stmts, same_stmts};
use crate::text::{string_of, copy_string, push_char, push_str, chars_of, i64_text, usize_text, int_text, nat_digits};
use crate::render::{pretty, pretty_spec, type_text, pattern_text, render_type, render_pattern};
use crate::static_agent::synthesize_from_ensures;
use crate::solver::to_ineqs;

verus! {

/// One function's verification intent, detached from its module: the
/// module's attributes (its routing) and the function itself.
#[derive(Clone)]
pub struct FuncSpec {
    pub module_attrs: Vec<Attribute>,
    pub func: Func,
}

impl FuncSpec {
    pub fn new(module_attrs: Vec<Attribute>, func: Func) -> (r: Self)
        ensures
            r.module_attrs == module_attrs,
            r.func == func,
    {
        FuncSpec { module_attrs, func }
    }
}

/// A candidate implementation: the statements of a function body.
#[derive(Clone, PartialEq, Eq, Debug)]
pub struct Candidate {
    pub stmts: Vec<Stmt>,
}

/// A code-generation agent. It proposes a body for a function and rewrites
/// a body the verifier refuted, guided by the counter-example: a model that
/// gives pre-state variables (`base.field`) and post-state variables
/// (`base.field'`) values under which the contract fails.
pub trait CodeAgent {
    /// The agent's name, for reports.
    fn name(&self) -> &str;

    /// An initial candidate for `spec`.
    fn generate(&self, spec: &FuncSpec) -> Result<Candidate, String>;

    /// A new candidate from one the verifier refuted with `ce`.
    fn rewrite(&self, spec: &FuncSpec, prev: &Candidate, ce: &Model) -> Result<Candidate, String>;
}

/// One iteration of the loop.
#[derive(Clone)]
pub struct LoopStep {
    pub iteration: usize,
    pub action: String,
    pub candidate: Candidate,
    pub passed: bool,
    pub counterexample: Option<Model>,
}

/// The outcome of running the loop on one function.
#[derive(Clone)]
pub struct FuncOutcome {
    pub func_name: String,
    pub target: Target,
    pub agent: String,
    pub iterations: Vec<LoopStep>,
    pub final_candidate: Candidate,
    pub problem: VerificationProblem,
    pub result: VerificationResult,
    pub verified: bool,
}

/// How many candidates the loop verifies before it gives up.
pub const MAX_ITERS: usize = 8;

/// `p` is the verification problem of function `idx` of `m` with its body
/// replaced by `body`, checked against the invariants `m` declares.
pub open spec fn problem_of(m: Module, idx: int, body: Vec<Stmt>, p: VerificationProblem) -> bool {
    m.items@[idx] matches Item::Func(f) && exists|fr: Seq<ConV>|
        frames_ok(fr, with_body(f, body), item_invs(m.items@))
        && #[trigger] func_problems(with_body(f, body), item_invs(m.items@), fr) == Some(seq![problem_view(p)])
}

/// Function `idx` of `m`, with body `body`, lowers to exactly one problem.
pub open spec fn lowers_alone(m: Module, idx: int, body: Vec<Stmt>) -> bool {
    m.items@[idx] matches Item::Func(f)
        && func_ok(with_body(f, body), item_invs(m.items@))
        && branch_count(with_body(f, body)) == 1
}

/// The verification problem of a candidate body: function `func_idx` of
/// `module` with its body replaced, checked against the module's
/// invariants. Refused when that function does not lower, or lowers to
/// more than one problem (its `requires` split into branches).
pub fn problem_for(module: &Module, func_idx: usize, stmts: &Vec<Stmt>) -> (r: Result<VerificationProblem, String>)
    requires
        func_idx < module.items@.len(),
        module.items@[func_idx as int] is Func,
    ensures
        r is Ok <==> lowers_alone(*module, func_idx as int, *stmts),
        r matches Ok(p) ==> problem_of(*module, func_idx as int, *stmts, p),
{
    let f = match &module.items[func_idx] {
        Item::Func(f) => f,
        _ => {
            return Err(string_of("not a function"));
        },
    };
    let invs = module_invs(module);
    let ghost iv = item_invs(module.items@);
    let ghost g = with_body(*f, *stmts);
    match build_problems(f, stmts, &invs, Ghost(iv)) {
        Ok(ps) => {
            let ghost fr = choose|fr: Seq<ConV>| frames_ok(fr, g, iv) && func_problems(g, iv, fr) == Some(crate::extract::problems_view(ps@));
            proof { lemma_problem_count(g, iv, fr); }
            if ps.len() == 1 {
                let mut ps = ps;
                let ghost ps0 = ps@;
                match ps.pop() {
                    Some(p) => {
                        assert(crate::extract::problems_view(ps0) =~= seq![problem_view(p)]);
                        assert(func_problems(g, iv, fr) == Some(seq![problem_view(p)]));
                        Ok(p)
                    },
                    None => Err(string_of("no verification problem")),
                }
            } else {
                Err(string_of("the function's requires clauses split into several problems"))
            }
        },
        Err(e) => Err(e),
    }
}

/// A counter-example for one failed check: for the first check that failed,
/// paired by position with the conclusions, a model of the premises in
/// which that conclusion fails.
pub fn find_counterexample(problem: &VerificationProblem, result: &VerificationResult) -> (r: Option<Model>)
    ensures
        r matches Some(m) ==> exists|i: int, j: int|
            0 <= i < problem.conclusions@.len() && i < result.checks@.len() && !result.checks@[i].passed
            && 0 <= j < negation(problem.conclusions@[i].constraint.1).len()
            && #[trigger] all_hold(
                to_ineqs(cons_view(problem.premises@).push(
                    (con_view(problem.conclusions@[i].constraint).0, negation(problem.conclusions@[i].constraint.1)[j]),
                )),
                model_val(m@),
            ),
{
    let mut i: usize = 0;
    while i < problem.conclusions.len() && i < result.checks.len()
        invariant
            i <= problem.conclusions@.len(),
        decreases problem.conclusions@.len() - i,
    {
        if !result.checks[i].passed {
            let c = &problem.conclusions[i].constraint;
            let pre = problem.premises.as_slice();
            match counterexample(pre, c) {
                Some(m) => {
                    assert(pre@ == problem.premises@);
                    return Some(m);
                },
                None => {},
            }
        }
        i = i + 1;
    }
    None
}

/// The positions of the functions among `items`.
pub open spec fn func_positions(items: Seq<Item>) -> Seq<int>
    decreases items.len(),
{
    if items.len() == 0 {
        Seq::empty()
    } else {
        let rest = func_positions(items.drop_last());
        if items.last() is Func { rest.push(items.len() - 1) } else { rest }
    }
}

/// What a run of the loop on function `idx` of `m` reports.
pub open spec fn outcome_ok(m: Module, idx: int, o: FuncOutcome) -> bool {
    &&& m.items@[idx] matches Item::Func(f) && o.func_name@ == f.name@
    &&& o.target == target_spec(m.attributes@)
    &&& problem_of(m, idx, o.final_candidate.stmts, o.problem)
        || (m.items@[idx] matches Item::Func(f) && same_stmts(o.final_candidate.stmts@, f.body@)
            && problem_of(m, idx, f.body, o.problem))
    &&& o.result.func_name@ == o.problem.func_name@
    &&& checks_view(o.result.checks@) == expected_checks(cons_view(o.problem.premises@), o.problem.conclusions@)
    &&& o.result.all_passed == all_passed_spec(cons_view(o.problem.premises@), o.problem.conclusions@)
    &&& o.verified ==> o.result.all_passed
    &&& 1 <= o.iterations@.len() <= MAX_ITERS + 1
    &&& o.verified == o.iterations@.last().passed
    &&& forall|k: int| 0 <= k < o.iterations@.len() ==> (#[trigger] o.iterations@[k]).iteration == k
    &&& forall|k: int| 0 <= k < o.iterations@.len() && (#[trigger] o.iterations@[k]).passed ==> o.iterations@[k].counterexample is None
    &&& forall|k: int| 0 <= k < o.iterations@.len() - 1 ==> !(#[trigger] o.iterations@[k]).passed
}

/// Function `idx` of `m` has a body of its own that lowers alone and whose
/// every check passes.
pub open spec fn first_pass_ok(m: Module, idx: int) -> bool {
    &&& m.items@[idx] matches Item::Func(f)
    &&& !f.elided && f.body@.len() > 0
    &&& lowers_alone(m, idx, f.body)
    &&& forall|p: VerificationProblem| #[trigger] problem_of(m, idx, f.body, p)
        ==> all_passed_spec(cons_view(p.premises@), p.conclusions@)
}

/// Run the loop on function `func_idx` of `module`: start from the
/// developer's body when there is one (else from the agent's proposal),
/// verify, and rewrite from a counter-example until the contract holds, at
/// most [`MAX_ITERS`] candidates. When the agent hands back the candidate it
/// was given, the body synthesized from the `ensures` clauses is verified
/// instead and the loop ends. The outcome reports `verified` only for a
/// candidate whose every check passed.
pub fn transpile_func<A: CodeAgent>(module: &Module, func_idx: usize, agent: &A) -> (r: Result<FuncOutcome, String>)
    requires
        func_idx < module.items@.len(),
    ensures
        !(module.items@[func_idx as int] is Func) ==> r is Err,
        r matches Ok(o) ==> outcome_ok(*module, func_idx as int, o),
        first_pass_ok(*module, func_idx as int) ==> (r matches Ok(o) && o.verified && o.iterations@.len() == 1),
{
    let func = match &module.items[func_idx] {
        Item::Func(f) => f,
        _ => {
            return Err(string_of("transpile_func requires a function item"));
        },
    };
    let spec = FuncSpec::new(module.attributes.clone(), func.clone());
    let target = route(module.attributes.as_slice()).target;
    let agent_name = string_of(agent.name());
    let from_body = !(func.elided || func.body.len() == 0);
    let mut candidate = if !from_body {
        agent.generate(&spec)?
    } else {
        Candidate { stmts: copy_stmts(&func.body) }
    };
    let mut iterations: Vec<LoopStep> = Vec::new();
    let mut iter: usize = 0;
    while iter < MAX_ITERS
        invariant
            func_idx < module.items@.len(),
            module.items@[func_idx as int] == Item::Func(*func),
            target == target_spec(module.attributes@),
            iter <= MAX_ITERS,
            iterations@.len() == iter,
            forall|k: int| 0 <= k < iterations@.len() ==> (#[trigger] iterations@[k]).iteration == k,
            forall|k: int| 0 <= k < iterations@.len() ==> !(#[trigger] iterations@[k]).passed,
            from_body == !(func.elided || func.body@.len() == 0),
            from_body && iter == 0 ==> same_stmts(candidate.stmts@, func.body@),
            first_pass_ok(*module, func_idx as int) ==> iter == 0 && from_body,
        decreases MAX_ITERS - iter,
    {
        let first = iter == 0 && from_body;
        let problem = if first {
            problem_for(module, func_idx, &func.body)?
        } else {
            problem_for(module, func_idx, &candidate.stmts)?
        };
        let result = verify(&problem);
        let passed = result.all_passed;
        let step = LoopStep {
            iteration: iter,
            action: if iter == 0 { string_of("generate") } else { string_of("rewrite") },
            candidate: candidate.clone(),
            passed,
            counterexample: if passed { None } else { find_counterexample(&problem, &result) },
        };
        iterations.push(step);
        if passed {
            let o = FuncOutcome {
                func_name: crate::text::copy_string(&func.name),
                target,
                agent: agent_name,
                iterations,
                final_candidate: candidate,
                problem,
                result,
                verified: true,
            };
            assert(o.iterations@.last() == step);
            return Ok(o);
        }
        let ce = match find_counterexample(&problem, &result) {
            Some(m) => m,
            None => Model::new(),
        };
        let repaired = agent.rewrite(&spec, &candidate, &ce)?;
        if eq_stmts(&repaired.stmts, &candidate.stmts) {
            let syn = synthesize_from_ensures(&spec);
            let syn_problem = problem_for(module, func_idx, &syn.stmts)?;
            let syn_result = verify(&syn_problem);
            let verified = syn_result.all_passed;
            let last = LoopStep {
                iteration: iter + 1,
                action: string_of("synthesize-from-ensures"),
                candidate: syn.clone(),
                passed: verified,
                counterexample: None,
            };
            iterations.push(last);
            let o = FuncOutcome {
                func_name: crate::text::copy_string(&func.name),
                target,
                agent: agent_name,
                iterations,
                final_candidate: syn,
                problem: syn_problem,
                result: syn_result,
                verified,
            };
            assert(o.iterations@.last() == last);
            return Ok(o);
        }
        candidate = repaired;
        iter = iter + 1;
    }
    let problem = problem_for(module, func_idx, &candidate.stmts)?;
    let result = verify(&problem);
    Ok(FuncOutcome {
        func_name: crate::text::copy_string(&func.name),
        target,
        agent: agent_name,
        iterations,
        final_candidate: candidate,
        problem,
        result,
        verified: false,
    })
}

/// Run the loop on every function of `module`, in order.
pub fn transpile_module<A: CodeAgent>(module: &Module, agent: &A) -> (r: Result<Vec<FuncOutcome>, String>)
    ensures
        r matches Ok(os) ==> os@.len() == func_positions(module.items@).len()
            && forall|k: int| 0 <= k < os@.len() ==> outcome_ok(*module, #[trigger] func_positions(module.items@)[k], os@[k]),
        r matches Ok(os) ==> forall|k: int| 0 <= k < os@.len() && first_pass_ok(*module, #[trigger] func_positions(module.items@)[k])
            ==> os@[k].verified && os@[k].iterations@.len() == 1,
{
    let mut out: Vec<FuncOutcome> = Vec::new();
    let mut idx: usize = 0;
    while idx < module.items.len()
        invariant
            idx <= module.items@.len(),
            out@.len() == func_positions(module.items@.take(idx as int)).len(),
            forall|k: int| 0 <= k < out@.len() ==> outcome_ok(*module, #[trigger] func_positions(module.items@.take(idx as int))[k], out@[k]),
            forall|k: int| 0 <= k < out@.len() && first_pass_ok(*module, #[trigger] func_positions(module.items@.take(idx as int))[k])
                ==> out@[k].verified && out@[k].iterations@.len() == 1,
        decreases module.items@.len() - idx,
    {
        let ghost before = module.items@.take(idx as int);
        assert(module.items@.take(idx + 1).drop_last() == before);
        if let Item::Func(_) = &module.items[idx] {
            let o = transpile_func(module, idx, agent)?;
            out.push(o);
        }
        idx = idx + 1;
    }
    assert(module.items@.take(module.items@.len() as int) == module.items@);
    Ok(out)
}

// ---------------------------------------------------------------------------
// Rendering candidates as source text
// ---------------------------------------------------------------------------

/// `s` with every non-empty line indented by four spaces; lines are joined
/// by `\n` and a final line ending is dropped.
pub open spec fn indent_spec(s: Seq<char>) -> Seq<char> {
    indent_from(s, true)
}

/// [`indent_spec`] of a text that starts inside a line unless `start`.
pub open spec fn indent_from(s: Seq<char>, start: bool) -> Seq<char>
    decreases s.len(),
{
    if s.len() == 0 {
        Seq::empty()
    } else if s.len() == 1 && s[0] == '\n' {
        Seq::empty()
    } else if s[0] == '\n' {
        seq!['\n'] + indent_from(s.drop_first(), true)
    } else {
        (if start { "    "@ } else { Seq::empty() }) + seq![s[0]] + indent_from(s.drop_first(), false)
    }
}

pub open spec fn assign_op_spec(op: AssignOp) -> Seq<char> {
    match op {
        AssignOp::Plain => "="@,
        AssignOp::Add => "+="@,
        AssignOp::Sub => "-="@,
    }
}

/// `target op value;`
pub open spec fn assign_text(a: Assign) -> Seq<char> {
    pretty_spec(a.target) + seq![' '] + assign_op_spec(a.op) + seq![' '] + pretty_spec(a.value) + seq![';']
}

/// The first `n` assignments, one per line.
pub open spec fn assigns_text(asg: Seq<Assign>, n: nat) -> Seq<char>
    decreases n,
{
    if n == 0 || n > asg.len() {
        Seq::empty()
    } else if n == 1 {
        assign_text(asg[0])
    } else {
        assigns_text(asg, (n - 1) as nat) + seq!['\n'] + assign_text(asg[n - 1])
    }
}

/// A rendered `if` statement has its then body in the block right after the
/// condition and its else body, when there is one, in the block after
/// `else`.
pub proof fn lemma_stmt_text_if_branches(is: IfStmt)
    ensures
        ({
            let s = stmt_text(Stmt::If(is));
            let head = "if "@ + pretty_spec(is.condition) + " {\n"@ + block_text(is.then_body@, is.then_body@.len()) + seq!['}'];
            &&& s.len() >= head.len()
            &&& s.subrange(0, head.len() as int) == head
            &&& match is.else_body {
                Some(b) => s.subrange(head.len() as int, s.len() as int) == " else {\n"@ + block_text(b@, b@.len()) + seq!['}'],
                None => s.len() == head.len(),
            }
        }),
{
    let head = "if "@ + pretty_spec(is.condition) + " {\n"@ + block_text(is.then_body@, is.then_body@.len()) + seq!['}'];
    let s = stmt_text(Stmt::If(is));
    match is.else_body {
        Some(b) => {
            let tail = " else {\n"@ + block_text(b@, b@.len()) + seq!['}'];
            assert(s =~= head + tail);
            assert(s.subrange(0, head.len() as int) =~= head);
            assert(s.subrange(head.len() as int, s.len() as int) =~= tail);
        },
        None => {
            assert(s =~= head);
            assert(s.subrange(0, head.len() as int) =~= head);
        },
    }
}

/// The rendering of a statement; nested blocks are indented by four spaces.
pub open spec fn stmt_text(s: Stmt) -> Seq<char>
    decreases s, 0nat, 0nat,
{
    match s {
        Stmt::MutateState(asg) => "mutate state {\n"@ + indent_spec(assigns_text(asg@, asg@.len())) + "\n}"@,
        Stmt::Assign(a) => assign_text(a),
        Stmt::Let(lb) => "let "@ + lb.name@ + match lb.ty {
            Some(t) => ": "@ + type_text(t),
            None => Seq::empty(),
        } + " = "@ + pretty_spec(lb.value) + seq![';'],
        Stmt::If(is) => "if "@ + pretty_spec(is.condition) + " {\n"@ + block_text(is.then_body@, is.then_body@.len()) + seq!['}']
            + match is.else_body {
                Some(b) => " else {\n"@ + block_text(b@, b@.len()) + seq!['}'],
                None => Seq::empty(),
            },
        Stmt::Match(ms) => "match "@ + pretty_spec(ms.scrutinee) + " {\n"@ + arms_text(ms.arms@, ms.arms@.len()) + seq!['}'],
        Stmt::Return(e) => match e {
            Some(x) => "return "@ + pretty_spec(x) + seq![';'],
            None => "return;"@,
        },
    }
}

/// The first `n` statements of a block, each indented and ended by `\n`.
pub open spec fn block_text(ss: Seq<Stmt>, n: nat) -> Seq<char>
    decreases ss, 1nat, n,
{
    if n == 0 || n > ss.len() {
        Seq::empty()
    } else {
        block_text(ss, (n - 1) as nat) + indent_spec(stmt_text(ss[n - 1])) + seq!['\n']
    }
}

/// The first `n` arms of a `match` statement.
pub open spec fn arms_text(arms: Seq<MatchArm>, n: nat) -> Seq<char>
    decreases arms, 1nat, n,
{
    if n == 0 || n > arms.len() {
        Seq::empty()
    } else {
        arms_text(arms, (n - 1) as nat) + "    "@ + pattern_text(arms[n - 1].pattern) + " => {\n"@
            + block_text(arms[n - 1].body@, arms[n - 1].body@.len()) + "    }\n"@
    }
}

/// The first `n` statements of a candidate, each ended by `\n`.
pub open spec fn candidate_text(ss: Seq<Stmt>, n: nat) -> Seq<char>
    decreases n,
{
    if n == 0 || n > ss.len() {
        Seq::empty()
    } else {
        candidate_text(ss, (n - 1) as nat) + stmt_text(ss[n - 1]) + seq!['\n']
    }
}

pub(crate) fn indent(s: &str) -> (r: String)
    ensures
        r@ == indent_spec(s@),
{
    let cs = chars_of(s);
    let ghost all = cs@;
    let mut out = String::new();
    let mut start = true;
    let mut i: usize = 0;
    assert(all.subrange(0, all.len() as int) == all);
    while i < cs.len()
        invariant
            all == cs@,
            i <= all.len(),
            out@ + indent_from(all.subrange(i as int, all.len() as int), start) == indent_from(all, true),
        decreases all.len() - i,
    {
        let ghost sub = all.subrange(i as int, all.len() as int);
        assert(sub.drop_first() == all.subrange(i + 1, all.len() as int));
        assert(sub[0] == all[i as int]);
        let c = cs[i];
        if c == '\n' {
            if i + 1 < cs.len() {
                push_char(&mut out, '\n');
                start = true;
            }
        } else {
            if start {
                push_str(&mut out, "    ");
            }
            push_char(&mut out, c);
            start = false;
        }
        i = i + 1;
    }
    out
}

pub fn assign_op_text(op: AssignOp) -> (r: &'static str)
    ensures
        r@ == assign_op_spec(op),
{
    match op {
        AssignOp::Plain => "=",
        AssignOp::Add => "+=",
        AssignOp::Sub => "-=",
    }
}

pub(crate) fn render_assign(a: &Assign) -> (r: String)
    ensures
        r@ == assign_text(*a),
{
    let mut s = pretty(&a.target);
    push_char(&mut s, ' ');
    push_str(&mut s, assign_op_text(a.op));
    push_char(&mut s, ' ');
    let v = pretty(&a.value);
    push_str(&mut s, v.as_str());
    push_char(&mut s, ';');
    s
}

fn render_block(ss: &Vec<Stmt>) -> (r: String)
    ensures
        r@ == block_text(ss@, ss@.len()),
    decreases ss, 1nat,
{
    let mut s = String::new();
    let mut i: usize = 0;
    while i < ss.len()
        invariant
            i <= ss@.len(),
            s@ == block_text(ss@, i as nat),
        decreases ss@.len() - i,
    {
        proof {
            assert(decreases_to!(ss => ss@[i as int]));
        }
        let t = render_stmt(&ss[i]);
        let u = indent(t.as_str());
        push_str(&mut s, u.as_str());
        push_char(&mut s, '\n');
        i = i + 1;
    }
    s
}

fn render_arms(arms: &Vec<MatchArm>) -> (r: String)
    ensures
        r@ == arms_text(arms@, arms@.len()),
    decreases arms, 1nat,
{
    let mut s = String::new();
    let mut i: usize = 0;
    while i < arms.len()
        invariant
            i <= arms@.len(),
            s@ == arms_text(arms@, i as nat),
        decreases arms@.len() - i,
    {
        proof {
            assert(decreases_to!(arms => arms@[i as int]));
            assert(decreases_to!(arms@[i as int] => arms@[i as int].body));
        }
        push_str(&mut s, "    ");
        let p = render_pattern(&arms[i].pattern);
        push_str(&mut s, p.as_str());
        push_str(&mut s, " => {\n");
        let b = render_block(&arms[i].body);
        push_str(&mut s, b.as_str());
        push_str(&mut s, "    }\n");
        i = i + 1;
    }
    s
}

/// The rendering of one statement.
pub fn render_stmt(st: &Stmt) -> (r: String)
    ensures
        r@ == stmt_text(*st),
    decreases st, 0nat,
{
    match st {
        Stmt::MutateState(asg) => {
            let mut inner = String::new();
            let mut i: usize = 0;
            while i < asg.len()
                invariant
                    i <= asg@.len(),
                    inner@ == assigns_text(asg@, i as nat),
                decreases asg@.len() - i,
            {
                if i > 0 {
                    push_char(&mut inner, '\n');
                }
                let t = render_assign(&asg[i]);
                push_str(&mut inner, t.as_str());
                i = i + 1;
            }
            let mut s = string_of("mutate state {\n");
            let t = indent(inner.as_str());
            push_str(&mut s, t.as_str());
            push_str(&mut s, "\n}");
            s
        },
        Stmt::Assign(a) => render_assign(a),
        Stmt::Let(lb) => {
            let mut s = string_of("let ");
            push_str(&mut s, lb.name.as_str());
            match &lb.ty {
                Some(t) => {
                    push_str(&mut s, ": ");
                    let u = render_type(t);
                    push_str(&mut s, u.as_str());
                },
                None => {},
            }
            push_str(&mut s, " = ");
            let v = pretty(&lb.value);
            push_str(&mut s, v.as_str());
            push_char(&mut s, ';');
            s
        },
        Stmt::If(is) => {
            let mut s = string_of("if ");
            let c = pretty(&is.condition);
            push_str(&mut s, c.as_str());
            push_str(&mut s, " {\n");
            let b = render_block(&is.then_body);
            push_str(&mut s, b.as_str());
            push_char(&mut s, '}');
            match &is.else_body {
                Some(eb) => {
                    push_str(&mut s, " else {\n");
                    let e = render_block(eb);
                    push_str(&mut s, e.as_str());
                    push_char(&mut s, '}');
                },
                None => {},
            }
            s
        },
        Stmt::Match(ms) => {
            let mut s = string_of("match ");
            let c = pretty(&ms.scrutinee);
            push_str(&mut s, c.as_str());
            push_str(&mut s, " {\n");
            let a = render_arms(&ms.arms);
            push_str(&mut s, a.as_str());
            push_char(&mut s, '}');
            s
        },
        Stmt::Return(e) => match e {
            Some(x) => {
                let mut s = string_of("return ");
                let v = pretty(x);
                push_str(&mut s, v.as_str());
                push_char(&mut s, ';');
                s
            },
            None => string_of("return;"),
        },
    }
}

/// Render a candidate body as source text: each statement followed by a
/// line break.
pub fn render_candidate(c: &Candidate) -> (r: String)
    ensures
        r@ == candidate_text(c.stmts@, c.stmts@.len()),
{
    let mut s = String::new();
    let mut i: usize = 0;
    while i < c.stmts.len()
        invariant
            i <= c.stmts@.len(),
            s@ == candidate_text(c.stmts@, i as nat),
        decreases c.stmts@.len() - i,
    {
        let t = render_stmt(&c.stmts[i]);
        push_str(&mut s, t.as_str());
        push_char(&mut s, '\n');
        i = i + 1;
    }
    s
}

} // verus!
