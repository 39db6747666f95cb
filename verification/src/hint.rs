//! Readable hints for verification results: each check's clause kind, its
//! disjunction and approximation caveats, and, for a failed check, its
//! counterexample with post-state names (`w.balance'`) shown as
//! `w.balance (post-state)`.

use vstd::prelude::*;
use crate::agent::FuncOutcome;
use crate::verify::CheckResult;
use crate::ir::terms_view;
use crate::codegen::{text_lt, text_lt_exec};
use crate::text::{string_of, push_str, push_char, copy_string, i64_text, int_text, usize_text, nat_digits, chars_of};

verus! {

/// `sorted` with `x` inserted after every binding whose name does not sort
/// after `x`'s (a stable insertion).
pub open spec fn insert_binding(sorted: Seq<(Seq<char>, int)>, x: (Seq<char>, int)) -> Seq<(Seq<char>, int)>
    decreases sorted.len(),
{
    if sorted.len() == 0 {
        seq![x]
    } else if text_lt(x.0, sorted[0].0) {
        seq![x] + sorted
    } else {
        seq![sorted[0]] + insert_binding(sorted.drop_first(), x)
    }
}

/// The bindings of a model sorted by name, equal names in model order.
pub open spec fn sorted_bindings(mv: Seq<(Seq<char>, int)>) -> Seq<(Seq<char>, int)>
    decreases mv.len(),
{
    if mv.len() == 0 { Seq::empty() } else { insert_binding(sorted_bindings(mv.drop_last()), mv.last()) }
}

/// A binding, with a post-state name `x'` shown as `x (post-state)`.
pub open spec fn binding_text(b: (Seq<char>, int)) -> Seq<char> {
    if b.0.len() > 0 && b.0.last() == '\'' {
        b.0.drop_last() + " (post-state)="@ + int_text(b.1)
    } else {
        b.0 + seq!['='] + int_text(b.1)
    }
}

/// The first `n` bindings, separated by `, `.
pub open spec fn bindings_text(bs: Seq<(Seq<char>, int)>, n: nat) -> Seq<char>
    decreases n,
{
    if n == 0 || n > bs.len() {
        Seq::empty()
    } else if n == 1 {
        binding_text(bs[0])
    } else {
        bindings_text(bs, (n - 1) as nat) + ", "@ + binding_text(bs[n - 1])
    }
}

/// The hint line(s) of one check.
pub open spec fn hint_text(c: CheckResult) -> Seq<char> {
    seq!['['] + (if c.is_ensures { "ensures"@ } else { "invariant"@ }) + "] "@ + c.description@
        + (if c.is_approximation { " (interval-bounded approximation)"@ } else { Seq::empty() })
        + match c.or_group {
            Some(g) => " (disjunction group "@ + nat_digits(g as nat) + seq![')'],
            None => Seq::empty(),
        }
        + if !c.passed {
            " \u{2014} FAILED"@ + match c.counterexample {
                Some(m) => "\n    counterexample: "@ + bindings_text(sorted_bindings(m@), sorted_bindings(m@).len()),
                None => Seq::empty(),
            }
        } else {
            Seq::empty()
        }
}

fn insert_sorted_binding(v: &mut Vec<(String, i64)>, x: &(String, i64))
    ensures
        terms_view(final(v)@) == insert_binding(terms_view(old(v)@), (x.0@, x.1 as int)),
{
    let ghost tv = terms_view(v@);
    let ghost xv = (x.0@, x.1 as int);
    let mut i: usize = 0;
    assert(tv.skip(0) == tv);
    assert(tv.take(0) + insert_binding(tv, xv) == insert_binding(tv, xv));
    while i < v.len()
        invariant
            i <= v@.len(),
            tv == terms_view(v@),
            xv == (x.0@, x.1 as int),
            forall|j: int| 0 <= j < i ==> !text_lt(xv.0, #[trigger] tv[j].0),
            insert_binding(tv, xv) == tv.take(i as int) + insert_binding(tv.skip(i as int), xv),
        ensures
            i <= v@.len(),
            insert_binding(tv, xv) == tv.take(i as int) + insert_binding(tv.skip(i as int), xv),
            i < v@.len() ==> text_lt(xv.0, tv[i as int].0),
        decreases v@.len() - i,
    {
        let lt = text_lt_exec(x.0.as_str(), v[i].0.as_str());
        assert(tv[i as int].0 == v@[i as int].0@);
        if lt {
            break;
        }
        proof {
            let rest = tv.skip(i as int);
            assert(rest[0] == tv[i as int]);
            assert(rest.drop_first() == tv.skip(i + 1));
            assert(tv.take(i + 1) == tv.take(i as int).push(tv[i as int]));
            assert(tv.take(i as int) + (seq![rest[0]] + insert_binding(rest.drop_first(), xv))
                == tv.take(i + 1) + insert_binding(tv.skip(i + 1), xv));
        }
        i = i + 1;
    }
    proof {
        let rest = tv.skip(i as int);
        if i < v@.len() {
            assert(rest[0] == tv[i as int]);
            assert(insert_binding(rest, xv) == seq![xv] + rest);
        } else {
            assert(rest.len() == 0);
        }
    }
    let ghost before = v@;
    v.insert(i, (copy_string(&x.0), x.1));
    proof {
        assert(terms_view(v@) =~= tv.take(i as int) + (seq![xv] + tv.skip(i as int))) by {
            assert(v@ == before.insert(i as int, (x.0, x.1)));
        }
    }
}

fn sorted_model(m: &crate::solver::Model) -> (r: Vec<(String, i64)>)
    ensures
        terms_view(r@) == sorted_bindings(m@),
{
    let bs = m.bindings();
    let mut out: Vec<(String, i64)> = Vec::new();
    let mut i: usize = 0;
    while i < bs.len()
        invariant
            i <= bs@.len(),
            terms_view(bs@) == m@,
            terms_view(out@) == sorted_bindings(terms_view(bs@).take(i as int)),
        decreases bs@.len() - i,
    {
        proof {
            let t = terms_view(bs@).take(i + 1);
            assert(t.drop_last() == terms_view(bs@).take(i as int));
            assert(t.last() == (bs@[i as int].0@, bs@[i as int].1 as int));
        }
        insert_sorted_binding(&mut out, &bs[i]);
        i = i + 1;
    }
    assert(terms_view(bs@).take(bs@.len() as int) == terms_view(bs@));
    out
}

fn render_binding(b: &(String, i64)) -> (r: String)
    ensures
        r@ == binding_text((b.0@, b.1 as int)),
{
    let cs = chars_of(b.0.as_str());
    let n = cs.len();
    if n > 0 && cs[n - 1] == '\'' {
        let mut s = String::new();
        let mut i: usize = 0;
        while i < n - 1
            invariant
                n == cs@.len(),
                n > 0,
                i <= n - 1,
                cs@ == b.0@,
                s@ == cs@.take(i as int),
            decreases n - 1 - i,
        {
            push_char(&mut s, cs[i]);
            assert(cs@.take(i + 1) == cs@.take(i as int).push(cs@[i as int]));
            i = i + 1;
        }
        assert(cs@.take(n - 1) == cs@.drop_last());
        push_str(&mut s, " (post-state)=");
        let t = i64_text(b.1);
        push_str(&mut s, t.as_str());
        s
    } else {
        let mut s = copy_string(&b.0);
        push_char(&mut s, '=');
        let t = i64_text(b.1);
        push_str(&mut s, t.as_str());
        s
    }
}

/// Render one check as a hint: `[ensures]` or `[invariant]`, its clause,
/// its caveats, and for a failed check `— FAILED` with its counterexample
/// sorted by name.
pub fn format_hint(check: &CheckResult) -> (r: String)
    ensures
        r@ == hint_text(*check),
{
    let mut s = String::new();
    push_char(&mut s, '[');
    let kind: &str = if check.is_ensures { "ensures" } else { "invariant" };
    push_str(&mut s, kind);
    push_str(&mut s, "] ");
    push_str(&mut s, check.description.as_str());
    if check.is_approximation {
        push_str(&mut s, " (interval-bounded approximation)");
    }
    match check.or_group {
        Some(g) => {
            push_str(&mut s, " (disjunction group ");
            let t = usize_text(g);
            push_str(&mut s, t.as_str());
            push_char(&mut s, ')');
        },
        None => {},
    }
    let ghost head = s@;
    assert(head == seq!['['] + (if check.is_ensures { "ensures"@ } else { "invariant"@ }) + "] "@ + check.description@
        + (if check.is_approximation { " (interval-bounded approximation)"@ } else { Seq::empty() })
        + match check.or_group {
            Some(g) => " (disjunction group "@ + nat_digits(g as nat) + seq![')'],
            None => Seq::empty(),
        });
    if !check.passed {
        push_str(&mut s, " \u{2014} FAILED");
        match &check.counterexample {
            Some(m) => {
                push_str(&mut s, "\n    counterexample: ");
                let sorted = sorted_model(m);
                let ghost sv = terms_view(sorted@);
                let mut parts = String::new();
                let mut i: usize = 0;
                while i < sorted.len()
                    invariant
                        i <= sorted@.len(),
                        sv == terms_view(sorted@),
                        parts@ == bindings_text(sv, i as nat),
                    decreases sorted@.len() - i,
                {
                    if i > 0 {
                        push_str(&mut parts, ", ");
                    }
                    let t = render_binding(&sorted[i]);
                    assert(sv[i as int] == (sorted@[i as int].0@, sorted@[i as int].1 as int));
                    push_str(&mut parts, t.as_str());
                    i = i + 1;
                }
                push_str(&mut s, parts.as_str());
            },
            None => {},
        }
    }
    assert(s@ == hint_text(*check));
    s
}

/// The hints of the first `n` checks, one per line.
pub open spec fn hints_text(cs: Seq<CheckResult>, n: nat) -> Seq<char>
    decreases n,
{
    if n == 0 || n > cs.len() {
        Seq::empty()
    } else if n == 1 {
        hint_text(cs[0])
    } else {
        hints_text(cs, (n - 1) as nat) + seq!['\n'] + hint_text(cs[n - 1])
    }
}

/// Render every check of an outcome as hints, one per line.
pub fn format_outcome_hints(outcome: &FuncOutcome) -> (r: String)
    ensures
        r@ == hints_text(outcome.result.checks@, outcome.result.checks@.len()),
{
    let cs = &outcome.result.checks;
    let mut s = String::new();
    let mut i: usize = 0;
    while i < cs.len()
        invariant
            i <= cs@.len(),
            s@ == hints_text(cs@, i as nat),
        decreases cs@.len() - i,
    {
        if i > 0 {
            push_char(&mut s, '\n');
        }
        let t = format_hint(&cs[i]);
        push_str(&mut s, t.as_str());
        i = i + 1;
    }
    s
}

} // verus!
