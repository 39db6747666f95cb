//! The verification report a terminal shows: per function, each check with
//! its status, counterexample and source location, disjunction groups, and
//! the overall result; optionally with ANSI colors.

use vstd::prelude::*;
use crate::ir::VerificationProblem;
use crate::verify::{verify, CheckResult, VerificationResult, checks_view, expected_checks, all_passed_spec, cex_ok};
use crate::extract::cons_view;
use crate::analysis::{bindings_text, push_bindings, lines_spec, lines_view, text_lines};
use crate::span::Span;
use crate::text::{string_of, push_str, push_char, usize_text, nat_digits};
use crate::prove::{concat, lemma_concat_step};

verus! {

pub open spec fn reset_code() -> Seq<char> { "\x1b[0m"@ }
pub open spec fn red_code() -> Seq<char> { "\x1b[31m"@ }
pub open spec fn green_code() -> Seq<char> { "\x1b[32m"@ }
pub open spec fn yellow_code() -> Seq<char> { "\x1b[33m"@ }
pub open spec fn cyan_code() -> Seq<char> { "\x1b[36m"@ }

/// `s` in the given color when colors are on.
pub open spec fn paint_spec(enabled: bool, color: Seq<char>, s: Seq<char>) -> Seq<char> {
    if enabled { color + s + reset_code() } else { s }
}

pub open spec fn tag_spec(enabled: bool, passed: bool) -> Seq<char> {
    if passed { paint_spec(enabled, green_code(), "PASS"@) } else { paint_spec(enabled, red_code(), "FAIL"@) }
}

pub open spec fn spaces(n: int) -> Seq<char> {
    Seq::new(if n > 0 { n as nat } else { 0 }, |i: int| ' ')
}

/// A rustc-style pointer at 1-based `(line, col)` of the source: the file
/// position, the source line, and a caret under the column; nothing when
/// the line is out of range.
pub open spec fn caret_spec(enabled: bool, file: Seq<char>, lines: Seq<Seq<char>>, sp: Span) -> Seq<char> {
    if sp.line == 0 || sp.line > lines.len() {
        Seq::empty()
    } else {
        let ln = nat_digits(sp.line as nat);
        let w = ln.len() as int;
        paint_spec(enabled, cyan_code(), "-->"@) + " "@ + file + ":"@ + ln + ":"@ + nat_digits(sp.col as nat) + "\n"@
            + spaces(w) + " |\n"@
            + ln + " | "@ + lines[sp.line - 1] + "\n"@
            + spaces(w) + " | "@ + spaces(sp.col - 1) + paint_spec(enabled, red_code(), "^"@) + "\n"@
    }
}

/// The status line of one check.
pub open spec fn check_head(enabled: bool, c: CheckResult, indent: Seq<char>) -> Seq<char> {
    indent + "["@ + tag_spec(enabled, c.passed) + "] "@ + (if c.is_ensures { "ensures "@ } else { Seq::empty() }) + c.description@
        + (if c.is_approximation { paint_spec(enabled, yellow_code(), " [interval-bounded]"@) } else { Seq::empty() }) + "\n"@
}

/// What follows the status line of a failed check: its counterexample and
/// its source location, where it has them.
pub open spec fn failure_text(enabled: bool, file: Seq<char>, lines: Seq<Seq<char>>, c: CheckResult, indent: Seq<char>) -> Seq<char> {
    (match c.counterexample {
        Some(m) => indent + "  counterexample: {"@ + bindings_text(m@) + "}\n"@,
        None => Seq::empty(),
    }) + match c.location {
        Some(sp) => caret_spec(enabled, file, lines, sp),
        None => Seq::empty(),
    }
}

/// One check, indented by `indent`: its status line, and for a failure its
/// counterexample and source location.
pub open spec fn check_text(enabled: bool, file: Seq<char>, lines: Seq<Seq<char>>, c: CheckResult, indent: Seq<char>) -> Seq<char> {
    check_head(enabled, c, indent) + if c.passed { Seq::empty() } else { failure_text(enabled, file, lines, c, indent) }
}

/// `ks` with `k` added in ascending order, unless it is there.
pub open spec fn insert_key(ks: Seq<usize>, k: usize) -> Seq<usize>
    decreases ks.len(),
{
    if ks.len() == 0 {
        seq![k]
    } else if ks[0] == k {
        ks
    } else if k < ks[0] {
        seq![k] + ks
    } else {
        seq![ks[0]] + insert_key(ks.drop_first(), k)
    }
}

/// The disjunction groups of the checks, in ascending order.
pub open spec fn group_keys(cs: Seq<CheckResult>) -> Seq<usize>
    decreases cs.len(),
{
    if cs.len() == 0 {
        Seq::empty()
    } else {
        match cs.last().or_group {
            Some(g) => insert_key(group_keys(cs.drop_last()), g),
            None => group_keys(cs.drop_last()),
        }
    }
}

/// The checks whose disjunction group is `g` (`None`: the independent ones).
pub open spec fn with_group(cs: Seq<CheckResult>, g: Option<usize>) -> Seq<CheckResult> {
    cs.filter(|c: CheckResult| c.or_group == g)
}

pub open spec fn independent(cs: Seq<CheckResult>) -> Seq<CheckResult> {
    with_group(cs, None)
}

pub open spec fn members(cs: Seq<CheckResult>, g: usize) -> Seq<CheckResult> {
    with_group(cs, Some(g))
}

pub open spec fn checks_text(enabled: bool, file: Seq<char>, lines: Seq<Seq<char>>, cs: Seq<CheckResult>, indent: Seq<char>) -> Seq<char> {
    concat(Seq::new(cs.len(), |i: int| check_text(enabled, file, lines, cs[i], indent)))
}

/// Some member of the group passed.
pub open spec fn group_ok(cs: Seq<CheckResult>, g: usize) -> bool {
    exists|i: int| 0 <= i < members(cs, g).len() && (#[trigger] members(cs, g)[i]).passed
}

pub open spec fn group_text(enabled: bool, file: Seq<char>, lines: Seq<Seq<char>>, cs: Seq<CheckResult>, g: usize) -> Seq<char> {
    "    ["@ + tag_spec(enabled, group_ok(cs, g)) + "] disjunction group "@ + nat_digits(g as nat) + ":\n"@
        + checks_text(enabled, file, lines, members(cs, g), "      "@)
}

/// The report on one function.
pub open spec fn function_text(enabled: bool, file: Seq<char>, lines: Seq<Seq<char>>, r: VerificationResult) -> Seq<char> {
    let cs = r.checks@;
    let ks = group_keys(cs);
    "  function "@ + r.func_name@ + ":\n"@
        + checks_text(enabled, file, lines, independent(cs), "    "@)
        + concat(Seq::new(ks.len(), |i: int| group_text(enabled, file, lines, cs, ks[i])))
        + "    => "@ + tag_spec(enabled, r.all_passed) + "\n\n"@
}

/// The function passes in the report: every independent check, and some
/// check of every group.
pub open spec fn function_ok(r: VerificationResult) -> bool {
    &&& forall|i: int| 0 <= i < independent(r.checks@).len() ==> (#[trigger] independent(r.checks@)[i]).passed
    &&& forall|k: int| 0 <= k < group_keys(r.checks@).len() ==> group_ok(r.checks@, #[trigger] group_keys(r.checks@)[k])
}

pub open spec fn hint_text() -> Seq<char> {
    "hint: some failures may be solver limitations (FM solver is incomplete for nonlinear arithmetic); try --solver z3 for exact results"@
}

/// The whole report over the verification results of a file.
pub open spec fn report_spec(enabled: bool, file: Seq<char>, source: Seq<char>, rs: Seq<VerificationResult>) -> Seq<char> {
    let lines = lines_spec(source);
    let ok = forall|i: int| 0 <= i < rs.len() ==> function_ok(#[trigger] rs[i]);
    "Verifying "@ + file + "\n\n"@
        + concat(Seq::new(rs.len(), |i: int| function_text(enabled, file, lines, rs[i])))
        + if ok {
            paint_spec(enabled, green_code(), "RESULT: all constraints satisfied."@) + "\n"@
        } else {
            paint_spec(enabled, red_code(), "RESULT: verification failed (see FAIL above)."@) + "\n"@
                + "\n"@ + paint_spec(enabled, yellow_code(), hint_text()) + "\n"@
        }
}

/// Filtering a prefix gives a prefix of the filtered sequence.
proof fn lemma_filter_prefix_in<A>(s: Seq<A>, k: int, p: spec_fn(A) -> bool)
    requires
        0 <= k <= s.len(),
    ensures
        s.take(k).filter(p).len() <= s.filter(p).len(),
        forall|j: int| 0 <= j < s.take(k).filter(p).len() ==> #[trigger] s.take(k).filter(p)[j] == s.filter(p)[j],
    decreases s.len() - k,
{
    if k == s.len() {
        assert(s.take(k) =~= s);
    } else {
        crate::solver::lemma_filter_step(s, k, p);
        lemma_filter_prefix_in(s, k + 1, p);
        let a = s.take(k).filter(p);
        let b = s.take(k + 1).filter(p);
        assert forall|j: int| 0 <= j < a.len() implies #[trigger] a[j] == s.filter(p)[j] by {
            assert(b[j] == s.filter(p)[j]);
            assert(a[j] == b[j]);
        }
    }
}

fn push_paint(out: &mut String, enabled: bool, color: &str, s: &str)
    ensures
        final(out)@ == old(out)@ + paint_spec(enabled, color@, s@),
{
    if enabled {
        push_str(out, color);
        push_str(out, s);
        push_str(out, "\x1b[0m");
    } else {
        push_str(out, s);
    }
}

fn push_tag(out: &mut String, enabled: bool, passed: bool)
    ensures
        final(out)@ == old(out)@ + tag_spec(enabled, passed),
{
    if passed {
        push_paint(out, enabled, "\x1b[32m", "PASS");
    } else {
        push_paint(out, enabled, "\x1b[31m", "FAIL");
    }
}

fn push_spaces(out: &mut String, n: usize)
    ensures
        final(out)@ == old(out)@ + spaces(n as int),
{
    let ghost base = out@;
    let mut i: usize = 0;
    while i < n
        invariant
            i <= n,
            out@ == base + spaces(i as int),
        decreases n - i,
    {
        push_char(out, ' ');
        assert(spaces(i + 1) =~= spaces(i as int).push(' '));
        i = i + 1;
    }
}

#[verifier::rlimit(40)]
fn push_caret(out: &mut String, enabled: bool, file: &str, lines: &Vec<Vec<char>>, sp: Span)
    ensures
        final(out)@ == old(out)@ + caret_spec(enabled, file@, lines_view(lines@), sp),
{
    if sp.line == 0 || sp.line > lines.len() {
        assert(final(out)@ =~= old(out)@ + caret_spec(enabled, file@, lines_view(lines@), sp));
        return;
    }
    let ln = usize_text(sp.line);
    let w = crate::text::chars_of(ln.as_str()).len();
    push_paint(out, enabled, "\x1b[36m", "-->");
    push_str(out, " ");
    push_str(out, file);
    push_str(out, ":");
    push_str(out, ln.as_str());
    push_str(out, ":");
    let cl = usize_text(sp.col);
    push_str(out, cl.as_str());
    push_str(out, "\n");
    push_spaces(out, w);
    push_str(out, " |\n");
    push_str(out, ln.as_str());
    push_str(out, " | ");
    let src = &lines[sp.line - 1];
    let mut k: usize = 0;
    let ghost before_src = out@;
    while k < src.len()
        invariant
            k <= src@.len(),
            out@ == before_src + src@.take(k as int),
        decreases src@.len() - k,
    {
        push_char(out, src[k]);
        assert(src@.take(k + 1) =~= src@.take(k as int).push(src@[k as int]));
        k = k + 1;
    }
    assert(src@.take(src@.len() as int) =~= src@);
    push_str(out, "\n");
    push_spaces(out, w);
    push_str(out, " | ");
    push_spaces(out, if sp.col > 0 { sp.col - 1 } else { 0 });
    push_paint(out, enabled, "\x1b[31m", "^");
    push_str(out, "\n");
    assert(spaces(if sp.col > 0 { sp.col - 1 } else { 0 }) =~= spaces(sp.col - 1));
    assert(final(out)@ =~= old(out)@ + caret_spec(enabled, file@, lines_view(lines@), sp));
}

fn push_check_head(out: &mut String, enabled: bool, c: &CheckResult, indent: &str)
    ensures
        final(out)@ == old(out)@ + check_head(enabled, *c, indent@),
{
    let ghost s0 = out@;
    push_str(out, indent);
    push_str(out, "[");
    push_tag(out, enabled, c.passed);
    push_str(out, "] ");
    let ghost s1 = out@;
    assert(s1 =~= s0 + (indent@ + "["@ + tag_spec(enabled, c.passed) + "] "@));
    if c.is_ensures {
        push_str(out, "ensures ");
    }
    let ghost s2 = out@;
    assert(s2 =~= s1 + (if c.is_ensures { "ensures "@ } else { Seq::<char>::empty() }));
    push_str(out, c.description.as_str());
    let ghost s3 = out@;
    if c.is_approximation {
        push_paint(out, enabled, "\x1b[33m", " [interval-bounded]");
    }
    let ghost s4 = out@;
    assert(s4 =~= s3 + (if c.is_approximation { paint_spec(enabled, yellow_code(), " [interval-bounded]"@) } else { Seq::<char>::empty() }));
    push_str(out, "\n");
    assert(out@ =~= old(out)@ + check_head(enabled, *c, indent@));
}

fn push_failure(out: &mut String, enabled: bool, file: &str, lines: &Vec<Vec<char>>, c: &CheckResult, indent: &str)
    ensures
        final(out)@ == old(out)@ + failure_text(enabled, file@, lines_view(lines@), *c, indent@),
{
    match &c.counterexample {
        Some(m) => {
            push_str(out, indent);
            push_str(out, "  counterexample: {");
            push_bindings(out, m);
            push_str(out, "}\n");
        },
        None => {},
    }
    let ghost mid = out@;
    match c.location {
        Some(sp) => push_caret(out, enabled, file, lines, sp),
        None => {},
    }
    assert(out@ =~= old(out)@ + failure_text(enabled, file@, lines_view(lines@), *c, indent@));
}

fn push_check(out: &mut String, enabled: bool, file: &str, lines: &Vec<Vec<char>>, c: &CheckResult, indent: &str)
    ensures
        final(out)@ == old(out)@ + check_text(enabled, file@, lines_view(lines@), *c, indent@),
{
    push_check_head(out, enabled, c, indent);
    if !c.passed {
        push_failure(out, enabled, file, lines, c, indent);
    }
    assert(out@ =~= old(out)@ + check_text(enabled, file@, lines_view(lines@), *c, indent@));
}

fn push_group_checks(out: &mut String, enabled: bool, file: &str, lines: &Vec<Vec<char>>, cs: &Vec<CheckResult>, g: Option<usize>, indent: &str)
    ensures
        final(out)@ == old(out)@ + checks_text(enabled, file@, lines_view(lines@), with_group(cs@, g), indent@),
{
    let ghost p = |c: CheckResult| c.or_group == g;
    let ghost base = out@;
    let mut i: usize = 0;
    assert(cs@.take(0).filter(p) =~= Seq::<CheckResult>::empty());
    assert(base =~= base + checks_text(enabled, file@, lines_view(lines@), cs@.take(0).filter(p), indent@));
    while i < cs.len()
        invariant
            i <= cs@.len(),
            p == (|c: CheckResult| c.or_group == g),
            out@ == base + checks_text(enabled, file@, lines_view(lines@), cs@.take(i as int).filter(p), indent@),
        decreases cs@.len() - i,
    {
        proof { crate::solver::lemma_filter_step(cs@, i as int, p); }
        let c = &cs[i];
        if c.or_group == g {
            let ghost before = out@;
            let ghost f0 = cs@.take(i as int).filter(p);
            let ghost xs0 = Seq::new(f0.len(), |k: int| check_text(enabled, file@, lines_view(lines@), f0[k], indent@));
            let ghost f1 = f0.push(*c);
            let ghost xs1 = Seq::new(f1.len(), |k: int| check_text(enabled, file@, lines_view(lines@), f1[k], indent@));
            push_check(out, enabled, file, lines, c, indent);
            proof {
                lemma_concat_step(xs1, f0.len() as int);
                assert(xs1.take(f0.len() as int) =~= xs0);
                assert(xs1.take(f1.len() as int) =~= xs1);
                assert(xs0.take(xs0.len() as int) =~= xs0);
            }
        }
        i = i + 1;
    }
    assert(cs@.take(cs@.len() as int) =~= cs@);
}

fn insert_sorted_key(ks: &mut Vec<usize>, k: usize)
    ensures
        final(ks)@ == insert_key(old(ks)@, k),
{
    let ghost k0 = ks@;
    let mut i: usize = 0;
    assert(k0.skip(0) =~= k0);
    assert(k0.take(0) + insert_key(k0, k) =~= insert_key(k0, k));
    while i < ks.len()
        invariant
            i <= ks@.len(),
            ks@ == k0,
            k0 == old(ks)@,
            forall|j: int| 0 <= j < i ==> ks@[j] < k,
            insert_key(k0, k) == k0.take(i as int) + insert_key(k0.skip(i as int), k),
        decreases ks@.len() - i,
    {
        let ghost rest = k0.skip(i as int);
        assert(rest[0] == k0[i as int]);
        if ks[i] == k {
            assert(insert_key(rest, k) == rest);
            assert(k0.take(i as int) + rest =~= k0);
            assert(ks@ == insert_key(k0, k));
            return;
        }
        if k < ks[i] {
            assert(insert_key(rest, k) == seq![k] + rest);
            ks.insert(i, k);
            assert(ks@ =~= k0.take(i as int) + (seq![k] + rest));
            assert(ks@ == insert_key(k0, k));
            return;
        }
        assert(rest.drop_first() =~= k0.skip(i + 1));
        assert(k0.take(i as int) + (seq![rest[0]] + insert_key(rest.drop_first(), k)) =~= k0.take(i + 1) + insert_key(k0.skip(i + 1), k));
        i = i + 1;
    }
    assert(k0.skip(i as int) =~= Seq::<usize>::empty());
    ks.push(k);
    assert(ks@ =~= k0.take(i as int) + seq![k]);
}

fn keys_of(cs: &Vec<CheckResult>) -> (r: Vec<usize>)
    ensures
        r@ == group_keys(cs@),
{
    let mut ks: Vec<usize> = Vec::new();
    let mut i: usize = 0;
    while i < cs.len()
        invariant
            i <= cs@.len(),
            ks@ == group_keys(cs@.take(i as int)),
        decreases cs@.len() - i,
    {
        assert(cs@.take(i + 1).drop_last() =~= cs@.take(i as int));
        match cs[i].or_group {
            Some(g) => insert_sorted_key(&mut ks, g),
            None => {},
        }
        i = i + 1;
    }
    assert(cs@.take(cs@.len() as int) =~= cs@);
    ks
}

fn any_member_passed(cs: &Vec<CheckResult>, g: usize) -> (r: bool)
    ensures
        r == group_ok(cs@, g),
{
    let ghost p = |c: CheckResult| c.or_group == Some(g);
    let mut i: usize = 0;
    while i < cs.len()
        invariant
            i <= cs@.len(),
            p == (|c: CheckResult| c.or_group == Some(g)),
            forall|j: int| 0 <= j < cs@.take(i as int).filter(p).len() ==> !(#[trigger] cs@.take(i as int).filter(p)[j]).passed,
        decreases cs@.len() - i,
    {
        proof { crate::solver::lemma_filter_step(cs@, i as int, p); }
        if cs[i].or_group == Some(g) && cs[i].passed {
            proof {
                let f = cs@.take(i + 1).filter(p);
                assert(f.last().passed);
                lemma_filter_prefix_in(cs@, i + 1, p);
                assert(members(cs@, g).len() >= f.len());
                assert(members(cs@, g)[f.len() - 1] == f[f.len() - 1]);
            }
            return true;
        }
        i = i + 1;
    }
    assert(cs@.take(cs@.len() as int) =~= cs@);
    false
}

#[verifier::rlimit(40)]
fn push_function(out: &mut String, enabled: bool, file: &str, lines: &Vec<Vec<char>>, r: &VerificationResult) -> (ok: bool)
    ensures
        final(out)@ == old(out)@ + function_text(enabled, file@, lines_view(lines@), *r),
        ok == function_ok(*r),
{
    let cs = &r.checks;
    push_str(out, "  function ");
    push_str(out, r.func_name.as_str());
    push_str(out, ":\n");
    push_group_checks(out, enabled, file, lines, cs, None, "    ");
    let ghost mid = out@;
    let mut ok = all_independent_passed(cs);
    let ks = keys_of(cs);
    let ghost xs = Seq::new(ks@.len(), |i: int| group_text(enabled, file@, lines_view(lines@), cs@, ks@[i]));
    let mut i: usize = 0;
    assert(mid =~= mid + concat(xs.take(0)));
    while i < ks.len()
        invariant
            i <= ks@.len(),
            ks@ == group_keys(cs@),
            xs == Seq::new(ks@.len(), |i: int| group_text(enabled, file@, lines_view(lines@), cs@, ks@[i])),
            out@ == mid + concat(xs.take(i as int)),
            ok == ((forall|j: int| 0 <= j < independent(cs@).len() ==> (#[trigger] independent(cs@)[j]).passed)
                && forall|k: int| 0 <= k < i ==> group_ok(cs@, #[trigger] ks@[k])),
        decreases ks@.len() - i,
    {
        proof { lemma_concat_step(xs, i as int); }
        let ghost before = out@;
        let g = ks[i];
        let any = any_member_passed(cs, g);
        push_str(out, "    [");
        push_tag(out, enabled, any);
        push_str(out, "] disjunction group ");
        let gt = usize_text(g);
        push_str(out, gt.as_str());
        push_str(out, ":\n");
        push_group_checks(out, enabled, file, lines, cs, Some(g), "      ");
        assert(out@ =~= before + xs[i as int]);
        if !any {
            ok = false;
        }
        i = i + 1;
    }
    assert(xs.take(xs.len() as int) =~= xs);
    push_str(out, "    => ");
    push_tag(out, enabled, r.all_passed);
    push_str(out, "\n\n");
    assert(final(out)@ =~= old(out)@ + function_text(enabled, file@, lines_view(lines@), *r));
    ok
}

fn all_independent_passed(cs: &Vec<CheckResult>) -> (r: bool)
    ensures
        r == forall|j: int| 0 <= j < independent(cs@).len() ==> (#[trigger] independent(cs@)[j]).passed,
{
    let ghost p = |c: CheckResult| c.or_group == None::<usize>;
    let mut i: usize = 0;
    while i < cs.len()
        invariant
            i <= cs@.len(),
            p == (|c: CheckResult| c.or_group == None::<usize>),
            forall|j: int| 0 <= j < cs@.take(i as int).filter(p).len() ==> (#[trigger] cs@.take(i as int).filter(p)[j]).passed,
        decreases cs@.len() - i,
    {
        proof { crate::solver::lemma_filter_step(cs@, i as int, p); }
        if cs[i].or_group.is_none() && !cs[i].passed {
            proof {
                let f = cs@.take(i + 1).filter(p);
                lemma_filter_prefix_in(cs@, i + 1, p);
                assert(independent(cs@)[f.len() - 1] == f[f.len() - 1]);
            }
            return false;
        }
        i = i + 1;
    }
    assert(cs@.take(cs@.len() as int) =~= cs@);
    true
}

/// The report over verification results: a section per function, then the
/// overall result; `true` when every function passes.
#[verifier::rlimit(40)]
pub fn report_for(file: &str, source: &str, results: &Vec<VerificationResult>, enabled: bool) -> (r: (String, bool))
    ensures
        r.0@ == report_spec(enabled, file@, source@, results@),
        r.1 == forall|i: int| 0 <= i < results@.len() ==> function_ok(#[trigger] results@[i]),
{
    let lines = text_lines(source);
    let mut out = string_of("Verifying ");
    push_str(&mut out, file);
    push_str(&mut out, "\n\n");
    let ghost base = out@;
    let ghost xs = Seq::new(results@.len(), |i: int| function_text(enabled, file@, lines_spec(source@), results@[i]));
    let mut ok = true;
    let mut i: usize = 0;
    assert(base =~= base + concat(xs.take(0)));
    while i < results.len()
        invariant
            i <= results@.len(),
            lines_view(lines@) == lines_spec(source@),
            xs == Seq::new(results@.len(), |i: int| function_text(enabled, file@, lines_spec(source@), results@[i])),
            out@ == base + concat(xs.take(i as int)),
            ok == forall|k: int| 0 <= k < i ==> function_ok(#[trigger] results@[k]),
        decreases results@.len() - i,
    {
        proof { lemma_concat_step(xs, i as int); }
        let ghost before = out@;
        let f_ok = push_function(&mut out, enabled, file, &lines, &results[i]);
        assert(out@ =~= before + xs[i as int]);
        if !f_ok {
            ok = false;
        }
        i = i + 1;
    }
    assert(xs.take(xs.len() as int) =~= xs);
    if ok {
        push_paint(&mut out, enabled, "\x1b[32m", "RESULT: all constraints satisfied.");
        push_str(&mut out, "\n");
    } else {
        push_paint(&mut out, enabled, "\x1b[31m", "RESULT: verification failed (see FAIL above).");
        push_str(&mut out, "\n");
        push_str(&mut out, "\n");
        push_paint(&mut out, enabled, "\x1b[33m", "hint: some failures may be solver limitations (FM solver is incomplete for nonlinear arithmetic); try --solver z3 for exact results");
        push_str(&mut out, "\n");
    }
    assert(out@ =~= report_spec(enabled, file@, source@, results@));
    (out, ok)
}

/// Whether every function passed, as the machine-readable report states it.
pub fn overall_passed(results: &Vec<VerificationResult>) -> (r: bool)
    ensures
        r == forall|i: int| 0 <= i < results@.len() ==> (#[trigger] results@[i]).all_passed,
{
    let mut i: usize = 0;
    while i < results.len()
        invariant
            i <= results@.len(),
            forall|k: int| 0 <= k < i ==> (#[trigger] results@[k]).all_passed,
        decreases results@.len() - i,
    {
        if !results[i].all_passed {
            return false;
        }
        i = i + 1;
    }
    true
}

/// Verify every problem, in order.
pub fn verify_all(problems: &Vec<VerificationProblem>) -> (r: Vec<VerificationResult>)
    ensures
        r@.len() == problems@.len(),
        forall|i: int| 0 <= i < r@.len() ==> {
            let (p, v) = (problems@[i], #[trigger] r@[i]);
            &&& v.func_name@ == p.func_name@
            &&& checks_view(v.checks@) == expected_checks(cons_view(p.premises@), p.conclusions@)
            &&& v.all_passed == all_passed_spec(cons_view(p.premises@), p.conclusions@)
            &&& forall|k: int| 0 <= k < v.checks@.len() ==> cex_ok(#[trigger] v.checks@[k], cons_view(p.premises@), p.conclusions@)
        },
{
    let mut out: Vec<VerificationResult> = Vec::new();
    let mut i: usize = 0;
    while i < problems.len()
        invariant
            i <= problems@.len(),
            out@.len() == i,
            forall|j: int| 0 <= j < i ==> {
                let (p, v) = (problems@[j], #[trigger] out@[j]);
                &&& v.func_name@ == p.func_name@
                &&& checks_view(v.checks@) == expected_checks(cons_view(p.premises@), p.conclusions@)
                &&& v.all_passed == all_passed_spec(cons_view(p.premises@), p.conclusions@)
                &&& forall|k: int| 0 <= k < v.checks@.len() ==> cex_ok(#[trigger] v.checks@[k], cons_view(p.premises@), p.conclusions@)
            },
        decreases problems@.len() - i,
    {
        let v = verify(&problems[i]);
        out.push(v);
        i = i + 1;
    }
    out
}

} // verus!
