//! Rust code generation: lowers parsed modules, with the verified bodies the
//! agentic loop produced, into one self-contained Rust library source.
//!
//! The generated code declares a `struct` of `i64` fields for every type
//! accessed by field, a `satisfies_invariants` method for each `invariant`,
//! and one `fn` per `func`, passing `&mut` only to parameters whose fields
//! the body assigns; the `requires` / `ensures` contracts are carried as doc
//! comments. A function marked `@eject` becomes an editable opaque block
//! behind a generated guard that asserts its contracts at the boundary.

use vstd::prelude::*;
use crate::ast::{
    Expr, IfExpr, IfStmt, Func, Module, Item, Stmt, Assign, AssignOp, Param, ExprMatchArm, MatchArm, Invariant, LetBinding,
    type_name_spec, op_name_spec, has_eject_spec,
};
use crate::agent::{assign_op_spec, assign_op_text};
use crate::agent::FuncOutcome;
use crate::render::{bin_op_spec, bin_op_text, type_text, pattern_text, render_type, render_pattern};
use crate::router::{route, target_spec, target_text};
use crate::extract::{pairs_view, insert_pair, stmt_assigns};
use crate::text::{string_of, copy_string, push_char, push_str, i64_text, int_text, str_eq, chars_of};

verus! {

// ---------------------------------------------------------------------------
// Expressions as Rust
// ---------------------------------------------------------------------------

/// An expression as Rust source: `old(e)` is read as `e` (the value a
/// `mutate state` assignment reads is the pre-state one).
pub open spec fn rust_expr(e: Expr) -> Seq<char>
    decreases e, 0nat, 0nat,
{
    match e {
        Expr::Int(n) => int_text(n as int),
        Expr::Var(v) => v@,
        Expr::Field { base, field } => base@ + seq!['.'] + field@,
        Expr::Old(x) => rust_expr(*x),
        Expr::Unary { expr, .. } => "-"@ + rust_expr(*expr),
        Expr::Bin { op, lhs, rhs } => rust_expr(*lhs) + seq![' '] + bin_op_spec(op) + seq![' '] + rust_expr(*rhs),
        Expr::Call(c) => c.func@ + seq!['('] + rust_list(c.args@, c.args@.len()) + seq![')'],
        Expr::MethodCall(m) => rust_expr(*m.receiver) + seq!['.'] + m.method@ + seq!['('] + rust_list(m.args@, m.args@.len()) + seq![')'],
        Expr::Index(ix) => rust_expr(*ix.receiver) + seq!['['] + rust_expr(*ix.index) + seq![']'],
        Expr::If(i) => "if "@ + rust_expr(*i.condition) + " { "@ + rust_expr(*i.then_expr) + " } else { "@ + rust_expr(*i.else_expr) + " }"@,
        Expr::Match(m) => "match "@ + rust_expr(*m.scrutinee) + " { "@ + rust_arms(m.arms@, m.arms@.len()) + " }"@,
        Expr::Try(x) => rust_expr(*x) + seq!['?'],
        Expr::Forall(f) => "forall "@ + f.var@ + ": "@ + type_text(f.var_ty) + " { "@ + rust_expr(*f.body) + " }"@,
        Expr::Aggregate(a) => op_name_spec(a.op) + seq!['('] + rust_list(a.args@, a.args@.len()) + seq![')'],
        Expr::Range { lo, hi } => rust_expr(*lo) + ".."@ + rust_expr(*hi),
    }
}

/// The first `n` expressions as Rust, separated by `, `.
pub open spec fn rust_list(es: Seq<Expr>, n: nat) -> Seq<char>
    decreases es, 1nat, n,
{
    if n == 0 || n > es.len() {
        Seq::empty()
    } else if n == 1 {
        rust_expr(es[0])
    } else {
        rust_list(es, (n - 1) as nat) + ", "@ + rust_expr(es[n - 1])
    }
}

/// The first `n` arms of a `match` expression as `pattern => expr`,
/// separated by `, `.
pub open spec fn rust_arms(arms: Seq<ExprMatchArm>, n: nat) -> Seq<char>
    decreases arms, 1nat, n,
{
    if n == 0 || n > arms.len() {
        Seq::empty()
    } else if n == 1 {
        pattern_text(arms[0].pattern) + " => "@ + rust_expr(arms[0].expr)
    } else {
        rust_arms(arms, (n - 1) as nat) + ", "@ + pattern_text(arms[n - 1].pattern) + " => "@ + rust_expr(arms[n - 1].expr)
    }
}

/// An expression for a doc comment: like [`rust_expr`] but keeping
/// `old(..)` around arithmetic.
pub open spec fn doc_expr(e: Expr) -> Seq<char>
    decreases e,
{
    match e {
        Expr::Int(n) => int_text(n as int),
        Expr::Var(v) => v@,
        Expr::Field { base, field } => base@ + seq!['.'] + field@,
        Expr::Old(x) => "old("@ + doc_expr(*x) + seq![')'],
        Expr::Unary { expr, .. } => "-"@ + doc_expr(*expr),
        Expr::Bin { op, lhs, rhs } => doc_expr(*lhs) + seq![' '] + bin_op_spec(op) + seq![' '] + doc_expr(*rhs),
        _ => rust_expr(e),
    }
}

/// An invariant clause inside a method of its struct: names and fields read
/// as `self.<name>`.
pub open spec fn inv_expr(e: Expr) -> Seq<char>
    decreases e,
{
    match e {
        Expr::Int(n) => int_text(n as int),
        Expr::Var(v) => "self."@ + v@,
        Expr::Field { field, .. } => "self."@ + field@,
        Expr::Old(x) => inv_expr(*x),
        Expr::Unary { expr, .. } => "-"@ + inv_expr(*expr),
        Expr::Bin { op, lhs, rhs } => inv_expr(*lhs) + seq![' '] + bin_op_spec(op) + seq![' '] + inv_expr(*rhs),
        _ => rust_expr(e),
    }
}

/// Render an expression as Rust source.
/// An `if` expression renders as Rust's: the then branch in the block right
/// after the condition, the else branch in the block after `else`.
pub proof fn lemma_rust_if_branches(i: IfExpr)
    ensures
        ({
            let s = rust_expr(Expr::If(i));
            let head = "if "@ + rust_expr(*i.condition) + " { "@ + rust_expr(*i.then_expr) + " }"@;
            let tail = " else { "@ + rust_expr(*i.else_expr) + " }"@;
            &&& s.len() == head.len() + tail.len()
            &&& s.subrange(0, head.len() as int) == head
            &&& s.subrange(head.len() as int, s.len() as int) == tail
        }),
{
    let head = "if "@ + rust_expr(*i.condition) + " { "@ + rust_expr(*i.then_expr) + " }"@;
    let tail = " else { "@ + rust_expr(*i.else_expr) + " }"@;
    reveal_strlit(" }");
    reveal_strlit(" } else { ");
    reveal_strlit(" else { ");
    assert(" } else { "@ + rust_expr(*i.else_expr) + " }"@ =~= " }"@ + tail);
    assert(rust_expr(Expr::If(i)) =~= head + tail);
}

pub fn render_expr(e: &Expr) -> (r: String)
    ensures
        r@ == rust_expr(*e),
    decreases e, 0nat,
{
    match e {
        Expr::Int(n) => i64_text(*n),
        Expr::Var(v) => copy_string(v),
        Expr::Field { base, field } => {
            let mut s = copy_string(base);
            push_char(&mut s, '.');
            push_str(&mut s, field.as_str());
            s
        },
        Expr::Old(inner) => render_expr(inner),
        Expr::Unary { expr, .. } => {
            let mut s = string_of("-");
            let t = render_expr(expr);
            push_str(&mut s, t.as_str());
            s
        },
        Expr::Bin { op, lhs, rhs } => {
            let mut s = render_expr(lhs);
            push_char(&mut s, ' ');
            push_str(&mut s, bin_op_text(*op));
            push_char(&mut s, ' ');
            let t = render_expr(rhs);
            push_str(&mut s, t.as_str());
            s
        },
        Expr::Call(c) => {
            let mut s = copy_string(&c.func);
            push_char(&mut s, '(');
            let a = render_list(&c.args);
            push_str(&mut s, a.as_str());
            push_char(&mut s, ')');
            s
        },
        Expr::MethodCall(m) => {
            let mut s = render_expr(&m.receiver);
            push_char(&mut s, '.');
            push_str(&mut s, m.method.as_str());
            push_char(&mut s, '(');
            let a = render_list(&m.args);
            push_str(&mut s, a.as_str());
            push_char(&mut s, ')');
            s
        },
        Expr::Index(ix) => {
            let mut s = render_expr(&ix.receiver);
            push_char(&mut s, '[');
            let t = render_expr(&ix.index);
            push_str(&mut s, t.as_str());
            push_char(&mut s, ']');
            s
        },
        Expr::If(i) => {
            let mut s = string_of("if ");
            let c = render_expr(&i.condition);
            push_str(&mut s, c.as_str());
            push_str(&mut s, " { ");
            let t = render_expr(&i.then_expr);
            push_str(&mut s, t.as_str());
            push_str(&mut s, " } else { ");
            let f = render_expr(&i.else_expr);
            push_str(&mut s, f.as_str());
            push_str(&mut s, " }");
            s
        },
        Expr::Match(m) => {
            let mut s = string_of("match ");
            let c = render_expr(&m.scrutinee);
            push_str(&mut s, c.as_str());
            push_str(&mut s, " { ");
            let a = render_arms(&m.arms);
            push_str(&mut s, a.as_str());
            push_str(&mut s, " }");
            s
        },
        Expr::Try(inner) => {
            let mut s = render_expr(inner);
            push_char(&mut s, '?');
            s
        },
        Expr::Forall(f) => {
            let mut s = string_of("forall ");
            push_str(&mut s, f.var.as_str());
            push_str(&mut s, ": ");
            let t = render_type(&f.var_ty);
            push_str(&mut s, t.as_str());
            push_str(&mut s, " { ");
            let b = render_expr(&f.body);
            push_str(&mut s, b.as_str());
            push_str(&mut s, " }");
            s
        },
        Expr::Aggregate(a) => {
            let mut s = string_of(a.op.op_name());
            push_char(&mut s, '(');
            let t = render_list(&a.args);
            push_str(&mut s, t.as_str());
            push_char(&mut s, ')');
            s
        },
        Expr::Range { lo, hi } => {
            let mut s = render_expr(lo);
            push_str(&mut s, "..");
            let t = render_expr(hi);
            push_str(&mut s, t.as_str());
            s
        },
    }
}

fn render_list(args: &Vec<Expr>) -> (r: String)
    ensures
        r@ == rust_list(args@, args@.len()),
    decreases args, 1nat,
{
    let mut s = String::new();
    let mut i: usize = 0;
    while i < args.len()
        invariant
            i <= args@.len(),
            s@ == rust_list(args@, i as nat),
        decreases args@.len() - i,
    {
        if i > 0 {
            push_str(&mut s, ", ");
        }
        proof {
            assert(decreases_to!(args => args@[i as int]));
        }
        let t = render_expr(&args[i]);
        push_str(&mut s, t.as_str());
        i = i + 1;
    }
    s
}

fn render_arms(arms: &Vec<ExprMatchArm>) -> (r: String)
    ensures
        r@ == rust_arms(arms@, arms@.len()),
    decreases arms, 1nat,
{
    let mut s = String::new();
    let mut i: usize = 0;
    while i < arms.len()
        invariant
            i <= arms@.len(),
            s@ == rust_arms(arms@, i as nat),
        decreases arms@.len() - i,
    {
        if i > 0 {
            push_str(&mut s, ", ");
        }
        proof {
            assert(decreases_to!(arms => arms@[i as int]));
            assert(decreases_to!(arms@[i as int] => arms@[i as int].expr));
        }
        let p = render_pattern(&arms[i].pattern);
        push_str(&mut s, p.as_str());
        push_str(&mut s, " => ");
        let t = render_expr(&arms[i].expr);
        push_str(&mut s, t.as_str());
        i = i + 1;
    }
    s
}

/// Render an expression for a doc comment, keeping `old(..)`.
pub fn render_expr_doc(e: &Expr) -> (r: String)
    ensures
        r@ == doc_expr(*e),
    decreases e,
{
    match e {
        Expr::Int(n) => i64_text(*n),
        Expr::Var(v) => copy_string(v),
        Expr::Field { base, field } => {
            let mut s = copy_string(base);
            push_char(&mut s, '.');
            push_str(&mut s, field.as_str());
            s
        },
        Expr::Old(inner) => {
            let mut s = string_of("old(");
            let t = render_expr_doc(inner);
            push_str(&mut s, t.as_str());
            push_char(&mut s, ')');
            s
        },
        Expr::Unary { expr, .. } => {
            let mut s = string_of("-");
            let t = render_expr_doc(expr);
            push_str(&mut s, t.as_str());
            s
        },
        Expr::Bin { op, lhs, rhs } => {
            let mut s = render_expr_doc(lhs);
            push_char(&mut s, ' ');
            push_str(&mut s, bin_op_text(*op));
            push_char(&mut s, ' ');
            let t = render_expr_doc(rhs);
            push_str(&mut s, t.as_str());
            s
        },
        other => render_expr(other),
    }
}

fn render_inv(e: &Expr) -> (r: String)
    ensures
        r@ == inv_expr(*e),
    decreases e,
{
    match e {
        Expr::Int(n) => i64_text(*n),
        Expr::Var(v) => {
            let mut s = string_of("self.");
            push_str(&mut s, v.as_str());
            s
        },
        Expr::Field { field, .. } => {
            let mut s = string_of("self.");
            push_str(&mut s, field.as_str());
            s
        },
        Expr::Old(inner) => render_inv(inner),
        Expr::Unary { expr, .. } => {
            let mut s = string_of("-");
            let t = render_inv(expr);
            push_str(&mut s, t.as_str());
            s
        },
        Expr::Bin { op, lhs, rhs } => {
            let mut s = render_inv(lhs);
            push_char(&mut s, ' ');
            push_str(&mut s, bin_op_text(*op));
            push_char(&mut s, ' ');
            let t = render_inv(rhs);
            push_str(&mut s, t.as_str());
            s
        },
        other => render_expr(other),
    }
}

// ---------------------------------------------------------------------------
// Text order
// ---------------------------------------------------------------------------

/// `a` sorts before `b` from position `i` on, given equal prefixes.
pub open spec fn text_lt_from(a: Seq<char>, b: Seq<char>, i: nat) -> bool
    decreases a.len() - i,
{
    if i >= a.len() {
        i < b.len()
    } else if i >= b.len() {
        false
    } else if a[i as int] != b[i as int] {
        (a[i as int] as int) < (b[i as int] as int)
    } else {
        text_lt_from(a, b, i + 1)
    }
}

/// Lexicographic order of texts by code point, as `String`'s `<`.
pub open spec fn text_lt(a: Seq<char>, b: Seq<char>) -> bool {
    text_lt_from(a, b, 0)
}

/// Each text sorts strictly before the next.
pub open spec fn strictly_sorted(v: Seq<Seq<char>>) -> bool {
    forall|i: int| 0 <= i < v.len() - 1 ==> text_lt(#[trigger] v[i], v[i + 1])
}

proof fn lemma_text_trichotomy(a: Seq<char>, b: Seq<char>, i: nat)
    requires
        i <= a.len(),
        i <= b.len(),
        a.subrange(0, i as int) == b.subrange(0, i as int),
        a != b,
    ensures
        text_lt_from(a, b, i) || text_lt_from(b, a, i),
    decreases a.len() - i,
{
    if i >= a.len() && i >= b.len() {
        assert(a == a.subrange(0, i as int));
        assert(b == b.subrange(0, i as int));
    } else if i < a.len() && i < b.len() && a[i as int] == b[i as int] {
        assert(a.subrange(0, i + 1 as int) == a.subrange(0, i as int).push(a[i as int]));
        assert(b.subrange(0, i + 1 as int) == b.subrange(0, i as int).push(b[i as int]));
        lemma_text_trichotomy(a, b, i + 1);
    } else if i < a.len() && i < b.len() {
    }
}

pub fn text_lt_exec(a: &str, b: &str) -> (r: bool)
    ensures
        r == text_lt(a@, b@),
{
    let ca = chars_of(a);
    let cb = chars_of(b);
    let mut i: usize = 0;
    loop
        invariant
            ca@ == a@,
            cb@ == b@,
            i <= ca@.len(),
            i <= cb@.len(),
            text_lt_from(a@, b@, i as nat) == text_lt(a@, b@),
        decreases ca@.len() - i,
    {
        if i >= ca.len() || i >= cb.len() {
            return i < cb.len() && i >= ca.len();
        }
        let c: char = ca[i];
        let d: char = cb[i];
        if c != d {
            return c < d;
        }
        i = i + 1;
    }
}

/// The texts of a list of strings.
pub open spec fn texts(v: Seq<String>) -> Seq<Seq<char>> {
    v.map_values(|s: String| s@)
}

/// Insert `x` into a strictly sorted list unless present.
pub(crate) fn insert_sorted(v: &mut Vec<String>, x: &str)
    requires
        strictly_sorted(texts(old(v)@)),
    ensures
        strictly_sorted(texts(final(v)@)),
        texts(final(v)@).to_set() == texts(old(v)@).to_set().insert(x@),
{
    let ghost tv = texts(v@);
    let mut i: usize = 0;
    while i < v.len()
        invariant
            i <= v@.len(),
            tv == texts(v@),
            strictly_sorted(tv),
            forall|j: int| 0 <= j < i ==> text_lt(#[trigger] tv[j], x@),
        ensures
            i <= v@.len(),
            tv == texts(v@),
            forall|j: int| 0 <= j < i ==> text_lt(#[trigger] tv[j], x@),
            i < v@.len() ==> !text_lt(tv[i as int], x@),
        decreases v@.len() - i,
    {
        if !text_lt_exec(v[i].as_str(), x) {
            break;
        }
        i = i + 1;
    }
    if i < v.len() && str_eq(v[i].as_str(), x) {
        assert(tv[i as int] == x@);
        assert(tv.contains(x@));
        assert(tv.to_set() =~= tv.to_set().insert(x@));
        return;
    }
    if i < v.len() {
        proof {
            assert(tv[i as int] != x@);
            assert(x@.subrange(0, 0) =~= tv[i as int].subrange(0, 0));
            lemma_text_trichotomy(x@, tv[i as int], 0);
        }
    }
    v.insert(i, string_of(x));
    proof {
        let nv = texts(v@);
        assert(nv =~= tv.insert(i as int, x@));
        assert forall|j: int| 0 <= j < nv.len() - 1 implies text_lt(#[trigger] nv[j], nv[j + 1]) by {
            if j < i as int - 1 {
                assert(nv[j] == tv[j] && nv[j + 1] == tv[j + 1]);
            } else if j == i as int - 1 {
                assert(nv[j] == tv[j] && nv[j + 1] == x@);
            } else if j == i as int {
                assert(nv[j] == x@ && nv[j + 1] == tv[j]);
            } else {
                assert(nv[j] == tv[j - 1] && nv[j + 1] == tv[j]);
            }
        }
        assert(nv.to_set() =~= tv.to_set().insert(x@)) by {
            assert forall|y: Seq<char>| nv.to_set().contains(y) <==> tv.to_set().insert(x@).contains(y) by {
                if nv.contains(y) {
                    let k = choose|k: int| 0 <= k < nv.len() && nv[k] == y;
                    if k < i { assert(tv[k] == y); } else if k > i { assert(tv[k - 1] == y); }
                }
                if tv.contains(y) {
                    let k = choose|k: int| 0 <= k < tv.len() && tv[k] == y;
                    if k < i { assert(nv[k] == y); } else { assert(nv[k + 1] == y); }
                }
                if y == x@ {
                    assert(nv[i as int] == y);
                }
            }
        }
    }
}

// ---------------------------------------------------------------------------
// The types that become structs
// ---------------------------------------------------------------------------

/// Each struct type with its fields, sorted.
pub type TypeFields = Vec<(String, Vec<String>)>;

/// The fields recorded for type `t`.
pub open spec fn field_set(tf: Seq<(String, Vec<String>)>, t: Seq<char>) -> Set<Seq<char>> {
    Set::new(|f: Seq<char>| exists|k: int| 0 <= k < tf.len() && #[trigger] tf[k].0@ == t && texts(tf[k].1@).contains(f))
}

/// Type names are distinct and each field list is strictly sorted.
pub open spec fn tf_wf(tf: Seq<(String, Vec<String>)>) -> bool {
    &&& forall|i: int, j: int| 0 <= i < j < tf.len() ==> (#[trigger] tf[i]).0@ != (#[trigger] tf[j]).0@
    &&& forall|k: int| 0 <= k < tf.len() ==> strictly_sorted(texts((#[trigger] tf[k]).1@))
}

/// The fields of type `t`, in order (none when it has no entry).
pub open spec fn fields_of(tf: Seq<(String, Vec<String>)>, t: Seq<char>) -> Seq<Seq<char>> {
    if exists|k: int| 0 <= k < tf.len() && #[trigger] tf[k].0@ == t {
        let k = choose|k: int| 0 <= k < tf.len() && #[trigger] tf[k].0@ == t;
        texts(tf[k].1@)
    } else {
        Seq::empty()
    }
}

fn type_index(tf: &TypeFields, t: &str) -> (r: Option<usize>)
    ensures
        r matches Some(k) ==> k < tf@.len() && tf@[k as int].0@ == t@,
        r is None ==> forall|k: int| 0 <= k < tf@.len() ==> (#[trigger] tf@[k]).0@ != t@,
{
    let mut i: usize = 0;
    while i < tf.len()
        invariant
            i <= tf@.len(),
            forall|k: int| 0 <= k < i ==> (#[trigger] tf@[k]).0@ != t@,
        decreases tf@.len() - i,
    {
        if str_eq(tf[i].0.as_str(), t) {
            return Some(i);
        }
        i = i + 1;
    }
    None
}

/// Record field `f` of type `t`.
fn add_field(tf: &mut TypeFields, t: &str, f: &str)
    requires
        tf_wf(old(tf)@),
    ensures
        tf_wf(final(tf)@),
        forall|u: Seq<char>| #[trigger] field_set(final(tf)@, u) == if u == t@ {
            field_set(old(tf)@, u).insert(f@)
        } else {
            field_set(old(tf)@, u)
        },
{
    let ghost o = tf@;
    match type_index(tf, t) {
        Some(k) => {
            let (name, mut fields) = tf.remove(k);
            let ghost of = texts(fields@);
            assert(o[k as int] == (name, fields));
            assert(name@ == t@);
            insert_sorted(&mut fields, f);
            let ghost nf = texts(fields@);
            let ghost fv = fields;
            tf.insert(k, (name, fields));
            proof {
                let n = tf@;
                assert(n =~= o.update(k as int, (name, fv)));
                assert(n[k as int].0@ == t@);
                assert(texts(n[k as int].1@) == nf);
                assert(texts(o[k as int].1@) == of);
                assert forall|u: Seq<char>| #[trigger] field_set(n, u) == if u == t@ {
                    field_set(o, u).insert(f@)
                } else {
                    field_set(o, u)
                } by {
                    let rhs = if u == t@ { field_set(o, u).insert(f@) } else { field_set(o, u) };
                    assert forall|g: Seq<char>| field_set(n, u).contains(g) <==> rhs.contains(g) by {
                        if field_set(n, u).contains(g) {
                            let j = choose|j: int| 0 <= j < n.len() && #[trigger] n[j].0@ == u && texts(n[j].1@).contains(g);
                            if j != k {
                                assert(o[j] == n[j]);
                                assert(o[j].0@ == u);
                                assert(field_set(o, u).contains(g));
                            } else if g != f@ {
                                assert(nf.to_set().contains(g));
                                assert(of.to_set().contains(g));
                                assert(o[k as int].0@ == u);
                                assert(field_set(o, u).contains(g));
                            }
                        }
                        if rhs.contains(g) {
                            if u == t@ && g == f@ {
                                assert(nf.to_set().contains(f@));
                                assert(n[k as int].0@ == u && texts(n[k as int].1@).contains(g));
                            } else {
                                assert(field_set(o, u).contains(g));
                                let j = choose|j: int| 0 <= j < o.len() && #[trigger] o[j].0@ == u && texts(o[j].1@).contains(g);
                                if j != k {
                                    assert(n[j] == o[j]);
                                    assert(n[j].0@ == u && texts(n[j].1@).contains(g));
                                } else {
                                    assert(of.to_set().contains(g));
                                    assert(nf.to_set().contains(g));
                                    assert(n[k as int].0@ == u && texts(n[k as int].1@).contains(g));
                                }
                            }
                        }
                    }
                    assert(field_set(n, u) =~= rhs);
                }
                assert forall|i: int, j: int| 0 <= i < j < n.len() implies (#[trigger] n[i]).0@ != (#[trigger] n[j]).0@ by {
                    assert(n[i].0@ == o[i].0@ && n[j].0@ == o[j].0@);
                }
                assert forall|m: int| 0 <= m < n.len() implies strictly_sorted(texts((#[trigger] n[m]).1@)) by {
                    if m != k {
                        assert(n[m] == o[m]);
                    }
                }
            }
        },
        None => {
            let mut fields: Vec<String> = Vec::new();
            fields.push(string_of(f));
            let name = string_of(t);
            let ghost fv = fields;
            tf.push((name, fields));
            proof {
                let n = tf@;
                assert(n == o.push((name, fv)));
                assert(n[o.len() as int].0@ == t@);
                assert(texts(fv@) =~= seq![f@]);
                assert(texts(n[o.len() as int].1@).contains(f@)) by {
                    assert(texts(n[o.len() as int].1@)[0] == f@);
                }
                assert forall|u: Seq<char>| #[trigger] field_set(n, u) == if u == t@ {
                    field_set(o, u).insert(f@)
                } else {
                    field_set(o, u)
                } by {
                    assert forall|g: Seq<char>| field_set(n, u).contains(g) <==> (if u == t@ {
                        field_set(o, u).insert(f@)
                    } else {
                        field_set(o, u)
                    }).contains(g) by {
                        if field_set(n, u).contains(g) {
                            let j = choose|j: int| 0 <= j < n.len() && #[trigger] n[j].0@ == u && texts(n[j].1@).contains(g);
                            if j < o.len() {
                                assert(o[j] == n[j]);
                            } else {
                                assert(texts(n[j].1@)[0] == f@);
                            }
                        }
                        if u == t@ && g == f@ {
                            assert(texts(n[o.len() as int].1@)[0] == f@);
                        }
                        if field_set(o, u).contains(g) {
                            let j = choose|j: int| 0 <= j < o.len() && #[trigger] o[j].0@ == u && texts(o[j].1@).contains(g);
                            assert(n[j] == o[j]);
                        }
                    }
                    assert(field_set(n, u) =~= if u == t@ {
                        field_set(o, u).insert(f@)
                    } else {
                        field_set(o, u)
                    });
                }
                assert forall|k: int| 0 <= k < n.len() implies strictly_sorted(texts((#[trigger] n[k]).1@)) by {
                    if k < o.len() {
                        assert(n[k] == o[k]);
                    }
                }
            }
        },
    }
}

/// The `(base, field)` pairs an expression reads, through `old`, negation
/// and binary operators.
pub open spec fn cg_fields(e: Expr) -> Set<(Seq<char>, Seq<char>)>
    decreases e,
{
    match e {
        Expr::Field { base, field } => set![(base@, field@)],
        Expr::Old(x) => cg_fields(*x),
        Expr::Unary { expr, .. } => cg_fields(*expr),
        Expr::Bin { lhs, rhs, .. } => cg_fields(*lhs) + cg_fields(*rhs),
        _ => Set::empty(),
    }
}

pub open spec fn cg_list(es: Seq<Expr>, n: nat) -> Set<(Seq<char>, Seq<char>)>
    decreases n,
{
    if n == 0 || n > es.len() { Set::empty() } else { cg_list(es, (n - 1) as nat) + cg_fields(es[n - 1]) }
}

/// The pair an assignment writes (a field target), and those its value reads.
pub open spec fn cg_assign(a: Assign) -> Set<(Seq<char>, Seq<char>)> {
    cg_target(a.target) + cg_fields(a.value)
}

/// The pair an assignment target writes, when it is a field.
pub open spec fn cg_target(t: Expr) -> Set<(Seq<char>, Seq<char>)> {
    match t {
        Expr::Field { base, field } => set![(base@, field@)],
        _ => Set::empty(),
    }
}

pub open spec fn cg_assigns(asg: Seq<Assign>, n: nat) -> Set<(Seq<char>, Seq<char>)>
    decreases n,
{
    if n == 0 || n > asg.len() { Set::empty() } else { cg_assigns(asg, (n - 1) as nat) + cg_assign(asg[n - 1]) }
}

pub open spec fn cg_body(ss: Seq<Stmt>, n: nat) -> Set<(Seq<char>, Seq<char>)>
    decreases n,
{
    if n == 0 || n > ss.len() {
        Set::empty()
    } else {
        cg_body(ss, (n - 1) as nat) + cg_assigns(stmt_assigns(ss[n - 1]), stmt_assigns(ss[n - 1]).len())
    }
}

/// The pairs a function's contracts and assignments mention.
pub open spec fn cg_func(f: Func) -> Set<(Seq<char>, Seq<char>)> {
    cg_list(f.requires@, f.requires@.len()) + cg_list(f.ensures@, f.ensures@.len()) + cg_body(f.body@, f.body@.len())
}

pub open spec fn cg_items(items: Seq<Item>, n: nat) -> Set<(Seq<char>, Seq<char>)>
    decreases n,
{
    if n == 0 || n > items.len() {
        Set::empty()
    } else {
        cg_items(items, (n - 1) as nat) + match items[n - 1] {
            Item::Func(f) => cg_func(f),
            _ => Set::empty(),
        }
    }
}

/// The type of the first parameter named `b`.
pub open spec fn param_type_in(ps: Seq<Param>, b: Seq<char>) -> Option<Seq<char>>
    decreases ps.len(),
{
    if ps.len() == 0 {
        None
    } else {
        match param_type_in(ps.drop_last(), b) {
            Some(t) => Some(t),
            None => if ps.last().name@ == b { Some(type_name_spec(ps.last().ty)) } else { None },
        }
    }
}

/// The type of the first parameter named `b` among the functions.
pub open spec fn first_param_type(items: Seq<Item>, b: Seq<char>) -> Option<Seq<char>>
    decreases items.len(),
{
    if items.len() == 0 {
        None
    } else {
        match first_param_type(items.drop_last(), b) {
            Some(t) => Some(t),
            None => match items.last() {
                Item::Func(f) => param_type_in(f.params@, b),
                _ => None,
            },
        }
    }
}

/// The struct a base's fields belong to: the type of the first parameter of
/// that name, or a struct named after the base itself.
pub open spec fn dest_type(items: Seq<Item>, b: Seq<char>) -> Seq<char> {
    match first_param_type(items, b) {
        Some(t) => t,
        None => b,
    }
}

/// The fields a module's functions give struct `t`.
pub open spec fn struct_fields(items: Seq<Item>, t: Seq<char>) -> Set<Seq<char>> {
    Set::new(|f: Seq<char>| exists|b: Seq<char>| #[trigger] cg_items(items, items.len()).contains((b, f)) && dest_type(items, b) == t)
}

fn collect_cg(e: &Expr, out: &mut Vec<(String, String)>)
    requires
        pairs_view(old(out)@).no_duplicates(),
    ensures
        pairs_view(final(out)@).no_duplicates(),
        pairs_view(final(out)@).to_set() == pairs_view(old(out)@).to_set() + cg_fields(*e),
    decreases e,
{
    let ghost s0 = pairs_view(out@).to_set();
    match e {
        Expr::Field { base, field } => {
            insert_pair(out, base.as_str(), field.as_str());
            assert(s0.insert((base@, field@)) == s0 + set![(base@, field@)]);
        },
        Expr::Old(x) => collect_cg(x, out),
        Expr::Unary { expr, .. } => collect_cg(expr, out),
        Expr::Bin { lhs, rhs, .. } => {
            collect_cg(lhs, out);
            collect_cg(rhs, out);
            assert(s0 + cg_fields(**lhs) + cg_fields(**rhs) == s0 + (cg_fields(**lhs) + cg_fields(**rhs)));
        },
        _ => {
            assert(s0 + Set::empty() == s0);
        },
    }
}

fn collect_cg_list(es: &Vec<Expr>, out: &mut Vec<(String, String)>)
    requires
        pairs_view(old(out)@).no_duplicates(),
    ensures
        pairs_view(final(out)@).no_duplicates(),
        pairs_view(final(out)@).to_set() == pairs_view(old(out)@).to_set() + cg_list(es@, es@.len()),
{
    let ghost s0 = pairs_view(out@).to_set();
    let mut i: usize = 0;
    assert(s0 + Set::empty() == s0);
    while i < es.len()
        invariant
            i <= es@.len(),
            pairs_view(out@).no_duplicates(),
            pairs_view(out@).to_set() == s0 + cg_list(es@, i as nat),
        decreases es@.len() - i,
    {
        collect_cg(&es[i], out);
        assert(s0 + cg_list(es@, i as nat) + cg_fields(es@[i as int]) == s0 + (cg_list(es@, i as nat) + cg_fields(es@[i as int])));
        i = i + 1;
    }
}

fn collect_cg_assigns(asg: &Vec<Assign>, out: &mut Vec<(String, String)>)
    requires
        pairs_view(old(out)@).no_duplicates(),
    ensures
        pairs_view(final(out)@).no_duplicates(),
        pairs_view(final(out)@).to_set() == pairs_view(old(out)@).to_set() + cg_assigns(asg@, asg@.len()),
{
    let ghost s0 = pairs_view(out@).to_set();
    let mut i: usize = 0;
    assert(s0 + Set::empty() == s0);
    while i < asg.len()
        invariant
            i <= asg@.len(),
            pairs_view(out@).no_duplicates(),
            pairs_view(out@).to_set() == s0 + cg_assigns(asg@, i as nat),
        decreases asg@.len() - i,
    {
        let a = &asg[i];
        let ghost s1 = pairs_view(out@).to_set();
        let ghost tset = cg_target(a.target);
        match &a.target {
            Expr::Field { base, field } => {
                insert_pair(out, base.as_str(), field.as_str());
                assert(s1.insert((base@, field@)) == s1 + tset);
            },
            _ => {
                assert(s1 + tset == s1);
            },
        }
        collect_cg(&a.value, out);
        assert(s0 + cg_assigns(asg@, i as nat) + tset + cg_fields(a.value) == s0 + (cg_assigns(asg@, i as nat) + cg_assign(*a)));
        i = i + 1;
    }
}

fn collect_cg_func(f: &Func, out: &mut Vec<(String, String)>)
    requires
        pairs_view(old(out)@).no_duplicates(),
    ensures
        pairs_view(final(out)@).no_duplicates(),
        pairs_view(final(out)@).to_set() == pairs_view(old(out)@).to_set() + cg_func(*f),
{
    let ghost s0 = pairs_view(out@).to_set();
    collect_cg_list(&f.requires, out);
    collect_cg_list(&f.ensures, out);
    let ghost s2 = pairs_view(out@).to_set();
    let mut k: usize = 0;
    assert(s2 + Set::empty() == s2);
    while k < f.body.len()
        invariant
            k <= f.body@.len(),
            pairs_view(out@).no_duplicates(),
            pairs_view(out@).to_set() == s2 + cg_body(f.body@, k as nat),
        decreases f.body@.len() - k,
    {
        let ghost s3 = pairs_view(out@).to_set();
        match &f.body[k] {
            Stmt::MutateState(asg) => {
                collect_cg_assigns(asg, out);
            },
            Stmt::Assign(a) => {
                let ghost one = seq![*a];
                let ghost sa = pairs_view(out@).to_set();
                let ghost tset = cg_target(a.target);
                match &a.target {
                    Expr::Field { base, field } => {
                        insert_pair(out, base.as_str(), field.as_str());
                        assert(sa.insert((base@, field@)) == sa + tset);
                    },
                    _ => {
                        assert(sa + tset == sa);
                    },
                }
                collect_cg(&a.value, out);
                assert(one[0] == *a);
                assert(cg_assigns(one, 0) == Set::<(Seq<char>, Seq<char>)>::empty());
                assert(cg_assigns(one, 1) == Set::<(Seq<char>, Seq<char>)>::empty() + cg_assign(*a));
                assert(s3 + tset + cg_fields(a.value) == s3 + cg_assigns(one, 1));
            },
            _ => {
                assert(s3 + Set::empty() == s3);
            },
        }
        assert(s2 + cg_body(f.body@, k as nat) + cg_assigns(stmt_assigns(f.body@[k as int]), stmt_assigns(f.body@[k as int]).len())
            == s2 + cg_body(f.body@, (k + 1) as nat));
        k = k + 1;
    }
    assert(s0 + cg_list(f.requires@, f.requires@.len()) + cg_list(f.ensures@, f.ensures@.len()) + cg_body(f.body@, f.body@.len())
        == s0 + cg_func(*f));
}

fn dest_type_exec(items: &Vec<Item>, b: &str) -> (r: String)
    ensures
        r@ == dest_type(items@, b@),
{
    let mut i: usize = 0;
    while i < items.len()
        invariant
            i <= items@.len(),
            first_param_type(items@.take(i as int), b@) is None,
        decreases items@.len() - i,
    {
        assert(items@.take(i + 1).drop_last() == items@.take(i as int));
        if let Item::Func(f) = &items[i] {
            let mut j: usize = 0;
            while j < f.params.len()
                invariant
                    i < items@.len(),
                    items@[i as int] == Item::Func(*f),
                    first_param_type(items@.take(i as int), b@) is None,
                    items@.take(i + 1).drop_last() == items@.take(i as int),
                    j <= f.params@.len(),
                    param_type_in(f.params@.take(j as int), b@) is None,
                decreases f.params@.len() - j,
            {
                assert(f.params@.take(j + 1).drop_last() == f.params@.take(j as int));
                if str_eq(f.params[j].name.as_str(), b) {
                    let t = string_of(f.params[j].ty.name());
                    proof {
                        assert(param_type_in(f.params@.take(j + 1), b@) == Some(t@));
                        lemma_param_type_prefix(f.params@, j + 1, b@);
                        assert(first_param_type(items@.take(i + 1), b@) == Some(t@));
                        lemma_first_param_prefix(items@, i + 1, b@);
                    }
                    return t;
                }
                j = j + 1;
            }
            assert(f.params@.take(f.params@.len() as int) == f.params@);
        }
        i = i + 1;
    }
    assert(items@.take(items@.len() as int) == items@);
    string_of(b)
}

proof fn lemma_param_type_prefix(ps: Seq<Param>, k: int, b: Seq<char>)
    requires
        0 <= k <= ps.len(),
        param_type_in(ps.take(k), b) is Some,
    ensures
        param_type_in(ps, b) == param_type_in(ps.take(k), b),
    decreases ps.len() - k,
{
    if k < ps.len() {
        assert(ps.take(k + 1).drop_last() == ps.take(k));
        lemma_param_type_prefix(ps, k + 1, b);
    } else {
        assert(ps.take(k) == ps);
    }
}

proof fn lemma_first_param_prefix(items: Seq<Item>, k: int, b: Seq<char>)
    requires
        0 <= k <= items.len(),
        first_param_type(items.take(k), b) is Some,
    ensures
        first_param_type(items, b) == first_param_type(items.take(k), b),
    decreases items.len() - k,
{
    if k < items.len() {
        assert(items.take(k + 1).drop_last() == items.take(k));
        lemma_first_param_prefix(items, k + 1, b);
    } else {
        assert(items.take(k) == items);
    }
}

/// Record the struct types a module needs: every field its functions'
/// contracts and assignments access, under the type of the first parameter
/// with the accessed base's name (or under the base's own name when no
/// parameter has it).
pub fn collect_types(module: &Module, types: &mut TypeFields)
    requires
        tf_wf(old(types)@),
    ensures
        tf_wf(final(types)@),
        forall|t: Seq<char>| #[trigger] field_set(final(types)@, t) == field_set(old(types)@, t) + struct_fields(module.items@, t),
{
    let items = &module.items;
    let mut pairs: Vec<(String, String)> = Vec::new();
    assert(pairs_view(pairs@).to_set() =~= Set::<(Seq<char>, Seq<char>)>::empty());
    let mut i: usize = 0;
    while i < items.len()
        invariant
            i <= items@.len(),
            pairs_view(pairs@).no_duplicates(),
            pairs_view(pairs@).to_set() == cg_items(items@, i as nat),
        decreases items@.len() - i,
    {
        let ghost s = pairs_view(pairs@).to_set();
        match &items[i] {
            Item::Func(f) => {
                collect_cg_func(f, &mut pairs);
            },
            _ => {
                assert(s + Set::empty() == s);
            },
        }
        i = i + 1;
    }
    let ghost all = cg_items(items@, items@.len());
    let ghost pv = pairs_view(pairs@);
    let ghost t0 = types@;
    let mut k: usize = 0;
    while k < pairs.len()
        invariant
            k <= pairs@.len(),
            pv == pairs_view(pairs@),
            pv.to_set() == all,
            all == cg_items(module.items@, module.items@.len()),
            tf_wf(types@),
            forall|t: Seq<char>| #[trigger] field_set(types@, t) == field_set(t0, t) + Set::new(|f: Seq<char>|
                exists|b: Seq<char>| #[trigger] pv.take(k as int).contains((b, f)) && dest_type(module.items@, b) == t),
        decreases pairs@.len() - k,
    {
        let d = dest_type_exec(&module.items, pairs[k].0.as_str());
        let ghost before = types@;
        add_field(types, d.as_str(), pairs[k].1.as_str());
        proof {
            let (b0, f0) = pv[k as int];
            assert(pv.take(k + 1) == pv.take(k as int).push((b0, f0)));
            assert forall|t: Seq<char>| #[trigger] field_set(types@, t) == field_set(t0, t) + Set::new(|f: Seq<char>|
                exists|b: Seq<char>| #[trigger] pv.take(k + 1).contains((b, f)) && dest_type(module.items@, b) == t) by {
                let lhs = field_set(types@, t);
                let rhs = field_set(t0, t) + Set::new(|f: Seq<char>|
                    exists|b: Seq<char>| #[trigger] pv.take(k + 1).contains((b, f)) && dest_type(module.items@, b) == t);
                let prev = Set::new(|f: Seq<char>|
                    exists|b: Seq<char>| #[trigger] pv.take(k as int).contains((b, f)) && dest_type(module.items@, b) == t);
                assert(field_set(before, t) == field_set(t0, t) + prev);
                assert forall|g: Seq<char>| lhs.contains(g) <==> rhs.contains(g) by {
                    if prev.contains(g) {
                        let b = choose|b: Seq<char>| #[trigger] pv.take(k as int).contains((b, g)) && dest_type(module.items@, b) == t;
                        assert(pv.take(k + 1).contains((b, g)));
                    }
                    if t == d@ && g == f0 {
                        assert(pv.take(k + 1)[k as int] == (b0, f0));
                        assert(pv.take(k + 1).contains((b0, f0)));
                    }
                    if rhs.contains(g) && !field_set(t0, t).contains(g) {
                        let b = choose|b: Seq<char>| #[trigger] pv.take(k + 1).contains((b, g)) && dest_type(module.items@, b) == t;
                        let idx = choose|idx: int| 0 <= idx < pv.take(k + 1).len() && #[trigger] pv.take(k + 1)[idx] == (b, g);
                        if idx < k {
                            assert(pv.take(k as int)[idx] == (b, g));
                            assert(pv.take(k as int).contains((b, g)));
                            assert(prev.contains(g));
                        } else {
                            assert((b, g) == (b0, f0));
                        }
                    }
                }
                assert(lhs =~= rhs);
            }
        }
        k = k + 1;
    }
    proof {
        assert(pv.take(pv.len() as int) == pv);
        assert forall|t: Seq<char>| #[trigger] field_set(types@, t) == field_set(t0, t) + struct_fields(module.items@, t) by {
            let a = Set::new(|f: Seq<char>| exists|b: Seq<char>| #[trigger] pv.take(pv.len() as int).contains((b, f)) && dest_type(module.items@, b) == t);
            assert forall|g: Seq<char>| a.contains(g) <==> struct_fields(module.items@, t).contains(g) by {
                if a.contains(g) {
                    let b = choose|b: Seq<char>| #[trigger] pv.take(pv.len() as int).contains((b, g)) && dest_type(module.items@, b) == t;
                    assert(pv.to_set().contains((b, g)));
                    assert(all.contains((b, g)));
                }
                if struct_fields(module.items@, t).contains(g) {
                    let b = choose|b: Seq<char>| #[trigger] all.contains((b, g)) && dest_type(module.items@, b) == t;
                    assert(pv.to_set().contains((b, g)));
                    assert(pv.take(pv.len() as int).contains((b, g)));
                }
            }
            assert(a =~= struct_fields(module.items@, t));
        }
    }
}

// ---------------------------------------------------------------------------
// Signatures
// ---------------------------------------------------------------------------

/// A parameter of a generated function: a scalar (`i64`), or a struct
/// passed by reference (`&mut` when the body assigns one of its fields).
#[derive(Debug, Clone)]
pub enum InputParam {
    Scalar { name: String },
    Struct { name: String, ty: String, mutated: bool, fields: Vec<String> },
}

/// A function's generated inputs, and the name whose assignment is its
/// scalar return value, if any.
#[derive(Debug, Clone)]
pub struct FuncAnalysis {
    pub inputs: Vec<InputParam>,
    pub scalar_out: Option<String>,
}

/// An input: is it a struct, its name, its type, is it mutated, its fields.
pub type InputV = (bool, Seq<char>, Seq<char>, bool, Seq<Seq<char>>);

pub open spec fn input_view(ip: InputParam) -> InputV {
    match ip {
        InputParam::Scalar { name } => (false, name@, Seq::empty(), false, Seq::empty()),
        InputParam::Struct { name, ty, mutated, fields } => (true, name@, ty@, mutated, texts(fields@)),
    }
}

pub open spec fn inputs_view(v: Seq<InputParam>) -> Seq<InputV> {
    v.map_values(|ip: InputParam| input_view(ip))
}

/// The assignments of the first `n` statements, in order.
pub open spec fn all_assigns(ss: Seq<Stmt>, n: nat) -> Seq<Assign>
    decreases n,
{
    if n == 0 || n > ss.len() { Seq::empty() } else { all_assigns(ss, (n - 1) as nat) + stmt_assigns(ss[n - 1]) }
}

/// The first name assigned as a bare variable.
pub open spec fn first_var_target(asg: Seq<Assign>) -> Option<Seq<char>>
    decreases asg.len(),
{
    if asg.len() == 0 {
        None
    } else {
        match first_var_target(asg.drop_last()) {
            Some(v) => Some(v),
            None => match asg.last().target {
                Expr::Var(v) => Some(v@),
                _ => None,
            },
        }
    }
}

/// The base of a field access.
pub open spec fn field_base(e: Expr) -> Option<Seq<char>> {
    match e {
        Expr::Field { base, .. } => Some(base@),
        _ => None,
    }
}

/// The bases whose fields are assigned.
pub open spec fn mutated_bases(asg: Seq<Assign>) -> Set<Seq<char>> {
    Set::new(|b: Seq<char>| exists|i: int| 0 <= i < asg.len() && field_base((#[trigger] asg[i]).target) == Some(b))
}

/// The inputs of the first `n` parameters.
pub open spec fn inputs_spec(ps: Seq<Param>, so: Option<Seq<char>>, muts: Set<Seq<char>>, tf: Seq<(String, Vec<String>)>, n: nat) -> Seq<InputV>
    decreases n,
{
    if n == 0 || n > ps.len() {
        Seq::empty()
    } else {
        let prev = inputs_spec(ps, so, muts, tf, (n - 1) as nat);
        let p = ps[n - 1];
        let fs = fields_of(tf, type_name_spec(p.ty));
        if so == Some(p.name@) {
            prev
        } else if fs.len() == 0 {
            prev.push((false, p.name@, Seq::empty(), false, Seq::empty()))
        } else {
            prev.push((true, p.name@, type_name_spec(p.ty), muts.contains(p.name@), fs))
        }
    }
}

/// The analysis of a function with body `stmts`.
pub open spec fn analysis_spec(f: Func, stmts: Seq<Stmt>, tf: Seq<(String, Vec<String>)>) -> (Seq<InputV>, Option<Seq<char>>) {
    let asg = all_assigns(stmts, stmts.len());
    let so = first_var_target(asg);
    (inputs_spec(f.params@, so, mutated_bases(asg), tf, f.params@.len()), so)
}

pub open spec fn opt_text(o: Option<String>) -> Option<Seq<char>> {
    match o {
        Some(s) => Some(s@),
        None => None,
    }
}

fn copy_strings(v: &Vec<String>) -> (r: Vec<String>)
    ensures
        texts(r@) == texts(v@),
{
    let mut out: Vec<String> = Vec::new();
    let mut i: usize = 0;
    while i < v.len()
        invariant
            i <= v@.len(),
            out@.len() == i,
            texts(out@) == texts(v@).take(i as int),
        decreases v@.len() - i,
    {
        let c = copy_string(&v[i]);
        let ghost o = out@;
        out.push(c);
        proof {
            assert(out@ == o.push(c));
            assert forall|k: int| 0 <= k < i + 1 implies #[trigger] texts(out@)[k] == texts(v@).take(i + 1)[k] by {
                assert(texts(out@)[k] == out@[k]@);
                assert(texts(v@)[k] == v@[k]@);
                if k < i {
                    assert(out@[k] == o[k]);
                    assert(texts(o)[k] == o[k]@);
                    assert(texts(o)[k] == texts(v@).take(i as int)[k]);
                } else {
                    assert(out@[k] == c);
                }
            }
            assert(texts(out@) =~= texts(v@).take(i + 1));
        }
        i = i + 1;
    }
    assert(texts(v@).take(v@.len() as int) == texts(v@));
    out
}

/// The fields recorded for type `t`, in order.
fn fields_for(tf: &TypeFields, t: &str) -> (r: Vec<String>)
    requires
        tf_wf(tf@),
    ensures
        texts(r@) == fields_of(tf@, t@),
{
    match type_index(tf, t) {
        Some(k) => {
            proof {
                let j = choose|j: int| 0 <= j < tf@.len() && #[trigger] tf@[j].0@ == t@;
                if j != k as int {
                    if j < k as int {
                        assert(tf@[j].0@ != tf@[k as int].0@);
                    } else {
                        assert(tf@[k as int].0@ != tf@[j].0@);
                    }
                }
            }
            copy_strings(&tf[k].1)
        },
        None => {
            assert(texts(Seq::<String>::empty()) =~= Seq::<Seq<char>>::empty());
            Vec::new()
        },
    }
}

fn note_target(a: &Assign, mutated: &mut Vec<String>, scalar_out: &mut Option<String>, Ghost(seen): Ghost<Seq<Assign>>)
    requires
        opt_text(*old(scalar_out)) == first_var_target(seen),
        texts(old(mutated)@).to_set() == mutated_bases(seen),
    ensures
        opt_text(*final(scalar_out)) == first_var_target(seen.push(*a)),
        texts(final(mutated)@).to_set() == mutated_bases(seen.push(*a)),
{
    let ghost ns = seen.push(*a);
    assert(ns.drop_last() == seen);
    let ghost m0 = texts(mutated@);
    match &a.target {
        Expr::Field { base, .. } => {
            mutated.push(copy_string(base));
            proof {
                assert(texts(mutated@) == m0.push(base@));
                m0.lemma_push_to_set_commute(base@);
                assert forall|b: Seq<char>| mutated_bases(ns).contains(b) <==> mutated_bases(seen).insert(base@).contains(b) by {
                    if mutated_bases(ns).contains(b) {
                        let i = choose|i: int| 0 <= i < ns.len() && field_base((#[trigger] ns[i]).target) == Some(b);
                        if i < seen.len() {
                            assert(ns[i] == seen[i]);
                        }
                    }
                    if mutated_bases(seen).contains(b) {
                        let i = choose|i: int| 0 <= i < seen.len() && field_base((#[trigger] seen[i]).target) == Some(b);
                        assert(ns[i] == seen[i]);
                    }
                    if b == base@ {
                        assert(ns[seen.len() as int] == *a);
                    }
                }
                assert(mutated_bases(ns) =~= mutated_bases(seen).insert(base@));
            }
        },
        Expr::Var(v) => {
            if scalar_out.is_none() {
                *scalar_out = Some(copy_string(v));
            }
            proof {
                assert forall|b: Seq<char>| mutated_bases(ns).contains(b) <==> mutated_bases(seen).contains(b) by {
                    if mutated_bases(ns).contains(b) {
                        let i = choose|i: int| 0 <= i < ns.len() && field_base((#[trigger] ns[i]).target) == Some(b);
                        if i < seen.len() {
                            assert(ns[i] == seen[i]);
                        }
                    }
                    if mutated_bases(seen).contains(b) {
                        let i = choose|i: int| 0 <= i < seen.len() && field_base((#[trigger] seen[i]).target) == Some(b);
                        assert(ns[i] == seen[i]);
                    }
                }
                assert(mutated_bases(ns) =~= mutated_bases(seen));
            }
        },
        _ => {
            proof {
                assert forall|b: Seq<char>| mutated_bases(ns).contains(b) <==> mutated_bases(seen).contains(b) by {
                    if mutated_bases(ns).contains(b) {
                        let i = choose|i: int| 0 <= i < ns.len() && field_base((#[trigger] ns[i]).target) == Some(b);
                        if i < seen.len() {
                            assert(ns[i] == seen[i]);
                        }
                    }
                    if mutated_bases(seen).contains(b) {
                        let i = choose|i: int| 0 <= i < seen.len() && field_base((#[trigger] seen[i]).target) == Some(b);
                        assert(ns[i] == seen[i]);
                    }
                }
                assert(mutated_bases(ns) =~= mutated_bases(seen));
            }
        },
    }
}

fn contains_text(v: &Vec<String>, n: &String) -> (r: bool)
    ensures
        r == texts(v@).to_set().contains(n@),
{
    let mut i: usize = 0;
    while i < v.len()
        invariant
            i <= v@.len(),
            forall|j: int| 0 <= j < i ==> texts(v@)[j] != n@,
        decreases v@.len() - i,
    {
        if str_eq(v[i].as_str(), n.as_str()) {
            assert(texts(v@)[i as int] == n@);
            return true;
        }
        i = i + 1;
    }
    false
}

/// Derive a function's generated inputs and scalar return from its
/// parameters and body: the first bare variable assigned is the scalar
/// return (and no longer an input); a parameter whose type has recorded
/// fields is a struct input, mutated when the body assigns one of its fields.
pub fn analyze_func(f: &Func, stmts: &Vec<Stmt>, types: &TypeFields) -> (r: FuncAnalysis)
    requires
        tf_wf(types@),
    ensures
        (inputs_view(r.inputs@), opt_text(r.scalar_out)) == analysis_spec(*f, stmts@, types@),
{
    let mut mutated: Vec<String> = Vec::new();
    let mut scalar_out: Option<String> = None;
    let ghost mut seen: Seq<Assign> = Seq::empty();
    assert(texts(mutated@).to_set() =~= mutated_bases(seen));
    let mut k: usize = 0;
    while k < stmts.len()
        invariant
            k <= stmts@.len(),
            seen == all_assigns(stmts@, k as nat),
            opt_text(scalar_out) == first_var_target(seen),
            texts(mutated@).to_set() == mutated_bases(seen),
        decreases stmts@.len() - k,
    {
        match &stmts[k] {
            Stmt::MutateState(asg) => {
                let ghost s0 = seen;
                let mut j: usize = 0;
                while j < asg.len()
                    invariant
                        j <= asg@.len(),
                        seen == s0 + asg@.take(j as int),
                        opt_text(scalar_out) == first_var_target(seen),
                        texts(mutated@).to_set() == mutated_bases(seen),
                    decreases asg@.len() - j,
                {
                    note_target(&asg[j], &mut mutated, &mut scalar_out, Ghost(seen));
                    proof {
                        assert(s0 + asg@.take(j + 1) == (s0 + asg@.take(j as int)).push(asg@[j as int]));
                        seen = seen.push(asg@[j as int]);
                    }
                    j = j + 1;
                }
                assert(asg@.take(asg@.len() as int) == asg@);
            },
            Stmt::Assign(a) => {
                note_target(a, &mut mutated, &mut scalar_out, Ghost(seen));
                proof {
                    assert(seen.push(*a) == seen + seq![*a]);
                    seen = seen.push(*a);
                }
            },
            _ => {
                assert(seen + Seq::<Assign>::empty() == seen);
            },
        }
        k = k + 1;
    }
    let ghost so = opt_text(scalar_out);
    let ghost muts = mutated_bases(seen);
    let mut inputs: Vec<InputParam> = Vec::new();
    let mut j: usize = 0;
    while j < f.params.len()
        invariant
            j <= f.params@.len(),
            tf_wf(types@),
            so == opt_text(scalar_out),
            muts == texts(mutated@).to_set(),
            inputs_view(inputs@) == inputs_spec(f.params@, so, muts, types@, j as nat),
        decreases f.params@.len() - j,
    {
        let p = &f.params[j];
        let skip = match &scalar_out {
            Some(v) => str_eq(v.as_str(), p.name.as_str()),
            None => false,
        };
        let ghost prev = inputs@;
        if !skip {
            let ty = p.ty.name();
            let fields = fields_for(types, ty);
            let ip = if fields.len() == 0 {
                InputParam::Scalar { name: copy_string(&p.name) }
            } else {
                let m = contains_text(&mutated, &p.name);
                InputParam::Struct { name: copy_string(&p.name), ty: string_of(ty), mutated: m, fields }
            };
            inputs.push(ip);
            assert(inputs_view(prev.push(ip)) == inputs_view(prev).push(input_view(ip)));
        }
        j = j + 1;
    }
    FuncAnalysis { inputs, scalar_out }
}

// ---------------------------------------------------------------------------
// Functions as Rust
// ---------------------------------------------------------------------------

/// `target op value` in Rust.
pub open spec fn assign_code(a: Assign) -> Seq<char> {
    rust_expr(a.target) + seq![' '] + assign_op_spec(a.op) + seq![' '] + rust_expr(a.value)
}

/// The first `n` assignments, separated by `; `.
pub open spec fn assign_codes(asg: Seq<Assign>, n: nat) -> Seq<char>
    decreases n,
{
    if n == 0 || n > asg.len() {
        Seq::empty()
    } else if n == 1 {
        assign_code(asg[0])
    } else {
        assign_codes(asg, (n - 1) as nat) + "; "@ + assign_code(asg[n - 1])
    }
}

/// `let name[: T] = value;`
pub open spec fn let_text(lb: LetBinding) -> Seq<char> {
    "let "@ + lb.name@ + match lb.ty {
        Some(t) => ": "@ + type_text(t),
        None => Seq::empty(),
    } + " = "@ + rust_expr(lb.value) + seq![';']
}

/// A statement nested inside a block, on its own line after prefix `p`.
/// A nested `if` statement in generated Rust has its then body in the block
/// right after the condition and its else body, when there is one, in the
/// block after `else`.
pub proof fn lemma_nested_if_branches(is: IfStmt, p: Seq<char>)
    ensures
        ({
            let s = nested_text(Stmt::If(is), p);
            let head = p + "if "@ + rust_expr(is.condition) + " {\n"@
                + nested_block(is.then_body@, p + "    "@, is.then_body@.len()) + p + seq!['}'];
            let tail = match is.else_body {
                Some(b) => " else {\n"@ + nested_block(b@, p + "    "@, b@.len()) + p + seq!['}'],
                None => Seq::empty(),
            } + seq!['\n'];
            &&& s.len() == head.len() + tail.len()
            &&& s.subrange(0, head.len() as int) == head
            &&& s.subrange(head.len() as int, s.len() as int) == tail
        }),
{
    let head = p + "if "@ + rust_expr(is.condition) + " {\n"@
        + nested_block(is.then_body@, p + "    "@, is.then_body@.len()) + p + seq!['}'];
    let tail = match is.else_body {
        Some(b) => " else {\n"@ + nested_block(b@, p + "    "@, b@.len()) + p + seq!['}'],
        None => Seq::empty(),
    } + seq!['\n'];
    let s = nested_text(Stmt::If(is), p);
    assert(s =~= head + tail);
    assert(s.subrange(0, head.len() as int) =~= head);
    assert(s.subrange(head.len() as int, s.len() as int) =~= tail);
}

/// A top-level `if` statement of a generated function body has its then
/// body in the block right after the condition and its else body, when
/// there is one, in the block after `else`.
pub proof fn lemma_top_if_branches(is: IfStmt, so: Option<Seq<char>>)
    ensures
        ({
            let s = top_text(Stmt::If(is), so);
            let head = "    if "@ + rust_expr(is.condition) + " {\n"@
                + nested_plain(is.then_body@, "        "@, is.then_body@.len()) + "    }"@;
            let tail = match is.else_body {
                Some(b) => " else {\n"@ + nested_plain(b@, "        "@, b@.len()) + "    }"@,
                None => Seq::empty(),
            } + seq!['\n'];
            &&& s.len() == head.len() + tail.len()
            &&& s.subrange(0, head.len() as int) == head
            &&& s.subrange(head.len() as int, s.len() as int) == tail
        }),
{
    let head = "    if "@ + rust_expr(is.condition) + " {\n"@
        + nested_plain(is.then_body@, "        "@, is.then_body@.len()) + "    }"@;
    let tail = match is.else_body {
        Some(b) => " else {\n"@ + nested_plain(b@, "        "@, b@.len()) + "    }"@,
        None => Seq::empty(),
    } + seq!['\n'];
    let s = top_text(Stmt::If(is), so);
    assert(s =~= head + tail);
    assert(s.subrange(0, head.len() as int) =~= head);
    assert(s.subrange(head.len() as int, s.len() as int) =~= tail);
}

pub open spec fn nested_text(s: Stmt, p: Seq<char>) -> Seq<char>
    decreases s, 0nat, 0nat,
{
    p + match s {
        Stmt::MutateState(asg) => "mutate state { "@ + assign_codes(asg@, asg@.len()) + " }"@,
        Stmt::Assign(a) => assign_code(a),
        Stmt::Let(lb) => let_text(lb),
        Stmt::If(is) => "if "@ + rust_expr(is.condition) + " {\n"@
            + nested_block(is.then_body@, p + "    "@, is.then_body@.len()) + p + seq!['}']
            + match is.else_body {
                Some(b) => " else {\n"@ + nested_block(b@, p + "    "@, b@.len()) + p + seq!['}'],
                None => Seq::empty(),
            },
        Stmt::Match(ms) => "match "@ + rust_expr(ms.scrutinee) + " {\n"@ + nested_arms(ms.arms@, p, ms.arms@.len()) + p + seq!['}'],
        Stmt::Return(e) => match e {
            Some(x) => "return "@ + rust_expr(x) + seq![';'],
            None => "return;"@,
        },
    } + seq!['\n']
}

/// The first `k` statements of a nested block, each led by `q` and nested
/// at prefix `q`.
pub open spec fn nested_block(ss: Seq<Stmt>, q: Seq<char>, k: nat) -> Seq<char>
    decreases ss, 1nat, k,
{
    if k == 0 || k > ss.len() {
        Seq::empty()
    } else {
        nested_block(ss, q, (k - 1) as nat) + q + nested_text(ss[k - 1], q)
    }
}

/// The first `k` arms of a nested `match` at prefix `p`.
pub open spec fn nested_arms(arms: Seq<MatchArm>, p: Seq<char>, k: nat) -> Seq<char>
    decreases arms, 1nat, k,
{
    if k == 0 || k > arms.len() {
        Seq::empty()
    } else {
        nested_arms(arms, p, (k - 1) as nat) + p + "    "@ + pattern_text(arms[k - 1].pattern) + " => {\n"@
            + nested_block(arms[k - 1].body@, p + "        "@, arms[k - 1].body@.len()) + p + "}\n"@
    }
}

/// The first `k` statements, each nested at prefix `p`.
pub open spec fn nested_plain(ss: Seq<Stmt>, p: Seq<char>, k: nat) -> Seq<char>
    decreases k,
{
    if k == 0 || k > ss.len() {
        Seq::empty()
    } else {
        nested_plain(ss, p, (k - 1) as nat) + nested_text(ss[k - 1], p)
    }
}

/// The name an assignment target binds, `""` unless it is a bare name.
pub open spec fn target_var_spec(e: Expr) -> Seq<char> {
    match e {
        Expr::Var(v) => v@,
        _ => Seq::empty(),
    }
}

/// The first `n` assignments of a `mutate state` block, one per line.
pub open spec fn top_assigns(asg: Seq<Assign>, n: nat) -> Seq<char>
    decreases n,
{
    if n == 0 || n > asg.len() {
        Seq::empty()
    } else {
        top_assigns(asg, (n - 1) as nat) + "    "@ + assign_code(asg[n - 1]) + ";\n"@
    }
}

/// The first `n` arms of a `match` in a function body.
pub open spec fn top_arms(arms: Seq<MatchArm>, n: nat) -> Seq<char>
    decreases n,
{
    if n == 0 || n > arms.len() {
        Seq::empty()
    } else {
        top_arms(arms, (n - 1) as nat) + "        "@ + pattern_text(arms[n - 1].pattern) + " => {\n"@
            + nested_plain(arms[n - 1].body@, "            "@, arms[n - 1].body@.len()) + "        }\n"@
    }
}

/// A statement of a function body; the assignment that produces the scalar
/// return value becomes a `let`.
pub open spec fn top_text(s: Stmt, so: Option<Seq<char>>) -> Seq<char> {
    match s {
        Stmt::MutateState(asg) => top_assigns(asg@, asg@.len()),
        Stmt::Assign(a) => if so == Some(target_var_spec(a.target)) {
            "    let "@ + target_var_spec(a.target) + " = "@ + rust_expr(a.value) + ";\n"@
        } else {
            "    "@ + assign_code(a) + ";\n"@
        },
        Stmt::Let(lb) => "    "@ + let_text(lb) + seq!['\n'],
        Stmt::If(is) => "    if "@ + rust_expr(is.condition) + " {\n"@
            + nested_plain(is.then_body@, "        "@, is.then_body@.len()) + "    }"@
            + match is.else_body {
                Some(b) => " else {\n"@ + nested_plain(b@, "        "@, b@.len()) + "    }"@,
                None => Seq::empty(),
            } + seq!['\n'],
        Stmt::Match(ms) => "    match "@ + rust_expr(ms.scrutinee) + " {\n"@ + top_arms(ms.arms@, ms.arms@.len()) + "    }\n"@,
        Stmt::Return(e) => match e {
            Some(x) => "    return "@ + rust_expr(x) + ";\n"@,
            None => "    return;\n"@,
        },
    }
}

/// The first `n` statements of a function body.
pub open spec fn top_block(ss: Seq<Stmt>, so: Option<Seq<char>>, n: nat) -> Seq<char>
    decreases n,
{
    if n == 0 || n > ss.len() { Seq::empty() } else { top_block(ss, so, (n - 1) as nat) + top_text(ss[n - 1], so) }
}

/// `name: Type` for the first `n` parameters, separated by `, `.
pub open spec fn sig_params(ps: Seq<Param>, n: nat) -> Seq<char>
    decreases n,
{
    if n == 0 || n > ps.len() {
        Seq::empty()
    } else if n == 1 {
        ps[0].name@ + ": "@ + type_name_spec(ps[0].ty)
    } else {
        sig_params(ps, (n - 1) as nat) + ", "@ + ps[n - 1].name@ + ": "@ + type_name_spec(ps[n - 1].ty)
    }
}

/// One doc line per clause: `label` then the clause.
pub open spec fn doc_lines(es: Seq<Expr>, label: Seq<char>, n: nat) -> Seq<char>
    decreases n,
{
    if n == 0 || n > es.len() { Seq::empty() } else { doc_lines(es, label, (n - 1) as nat) + label + doc_expr(es[n - 1]) + seq!['\n'] }
}

/// A generated parameter declaration.
pub open spec fn param_decl(ip: InputV) -> Seq<char> {
    if !ip.0 {
        ip.1 + ": i64"@
    } else {
        ip.1 + ": "@ + (if ip.3 { "&mut "@ } else { seq!['&'] }) + ip.2
    }
}

pub open spec fn param_decls(ins: Seq<InputV>, n: nat) -> Seq<char>
    decreases n,
{
    if n == 0 || n > ins.len() {
        Seq::empty()
    } else if n == 1 {
        param_decl(ins[0])
    } else {
        param_decls(ins, (n - 1) as nat) + ", "@ + param_decl(ins[n - 1])
    }
}

/// The Rust function `name` for `f` with body `stmts`, given its analysis.
pub open spec fn func_text(name: Seq<char>, f: Func, stmts: Seq<Stmt>, an: (Seq<InputV>, Option<Seq<char>>)) -> Seq<char> {
    "/// "@ + name + seq!['('] + sig_params(f.params@, f.params@.len()) + ")\n"@
        + doc_lines(f.requires@, "/// requires: "@, f.requires@.len())
        + doc_lines(f.ensures@, "/// ensures:  "@, f.ensures@.len())
        + "pub fn "@ + name + seq!['('] + param_decls(an.0, an.0.len()) + seq![')']
        + (if an.1 is Some { " -> i64"@ } else { Seq::empty() }) + " {\n"@
        + top_block(stmts, an.1, stmts.len())
        + match an.1 {
            Some(v) => "    "@ + v + seq!['\n'],
            None => Seq::empty(),
        }
        + "}\n"@
}

fn render_assign_code(a: &Assign) -> (r: String)
    ensures
        r@ == assign_code(*a),
{
    let mut s = render_expr(&a.target);
    push_char(&mut s, ' ');
    push_str(&mut s, assign_op_text(a.op));
    push_char(&mut s, ' ');
    let v = render_expr(&a.value);
    push_str(&mut s, v.as_str());
    s
}

fn render_let(lb: &LetBinding) -> (r: String)
    ensures
        r@ == let_text(*lb),
{
    let mut s = string_of("let ");
    push_str(&mut s, lb.name.as_str());
    match &lb.ty {
        Some(t) => {
            push_str(&mut s, ": ");
            let u = render_type(t);
            push_str(&mut s, u.as_str());
        },
        None => {},
    }
    push_str(&mut s, " = ");
    let v = render_expr(&lb.value);
    push_str(&mut s, v.as_str());
    push_char(&mut s, ';');
    s
}

fn concat(a: &str, b: &str) -> (r: String)
    ensures
        r@ == a@ + b@,
{
    let mut s = string_of(a);
    push_str(&mut s, b);
    s
}

/// A nested statement on its own line after prefix `p`.
fn render_nested(st: &Stmt, p: &str) -> (r: String)
    ensures
        r@ == nested_text(*st, p@),
    decreases st, 0nat,
{
    let mut s = string_of(p);
    match st {
        Stmt::MutateState(asg) => {
            push_str(&mut s, "mutate state { ");
            let mut inner = String::new();
            let mut i: usize = 0;
            while i < asg.len()
                invariant
                    i <= asg@.len(),
                    inner@ == assign_codes(asg@, i as nat),
                decreases asg@.len() - i,
            {
                if i > 0 {
                    push_str(&mut inner, "; ");
                }
                let t = render_assign_code(&asg[i]);
                push_str(&mut inner, t.as_str());
                i = i + 1;
            }
            push_str(&mut s, inner.as_str());
            push_str(&mut s, " }");
        },
        Stmt::Assign(a) => {
            let t = render_assign_code(a);
            push_str(&mut s, t.as_str());
        },
        Stmt::Let(lb) => {
            let t = render_let(lb);
            push_str(&mut s, t.as_str());
        },
        Stmt::If(is) => {
            push_str(&mut s, "if ");
            let c = render_expr(&is.condition);
            push_str(&mut s, c.as_str());
            push_str(&mut s, " {\n");
            let q = concat(p, "    ");
            let b = render_nested_block(&is.then_body, q.as_str());
            push_str(&mut s, b.as_str());
            push_str(&mut s, p);
            push_char(&mut s, '}');
            match &is.else_body {
                Some(eb) => {
                    push_str(&mut s, " else {\n");
                    let e = render_nested_block(eb, q.as_str());
                    push_str(&mut s, e.as_str());
                    push_str(&mut s, p);
                    push_char(&mut s, '}');
                },
                None => {},
            }
        },
        Stmt::Match(ms) => {
            push_str(&mut s, "match ");
            let c = render_expr(&ms.scrutinee);
            push_str(&mut s, c.as_str());
            push_str(&mut s, " {\n");
            let a = render_nested_arms(&ms.arms, p);
            push_str(&mut s, a.as_str());
            push_str(&mut s, p);
            push_char(&mut s, '}');
        },
        Stmt::Return(e) => match e {
            Some(x) => {
                push_str(&mut s, "return ");
                let v = render_expr(x);
                push_str(&mut s, v.as_str());
                push_char(&mut s, ';');
            },
            None => {
                push_str(&mut s, "return;");
            },
        },
    }
    push_char(&mut s, '\n');
    s
}

fn render_nested_block(ss: &Vec<Stmt>, q: &str) -> (r: String)
    ensures
        r@ == nested_block(ss@, q@, ss@.len()),
    decreases ss, 1nat,
{
    let mut s = String::new();
    let mut i: usize = 0;
    while i < ss.len()
        invariant
            i <= ss@.len(),
            s@ == nested_block(ss@, q@, i as nat),
        decreases ss@.len() - i,
    {
        proof {
            assert(decreases_to!(ss => ss@[i as int]));
        }
        push_str(&mut s, q);
        let t = render_nested(&ss[i], q);
        push_str(&mut s, t.as_str());
        i = i + 1;
    }
    s
}

fn render_nested_arms(arms: &Vec<MatchArm>, p: &str) -> (r: String)
    ensures
        r@ == nested_arms(arms@, p@, arms@.len()),
    decreases arms, 1nat,
{
    let q = concat(p, "        ");
    let mut s = String::new();
    let mut i: usize = 0;
    while i < arms.len()
        invariant
            i <= arms@.len(),
            q@ == p@ + "        "@,
            s@ == nested_arms(arms@, p@, i as nat),
        decreases arms@.len() - i,
    {
        proof {
            assert(decreases_to!(arms => arms@[i as int]));
            assert(decreases_to!(arms@[i as int] => arms@[i as int].body));
        }
        push_str(&mut s, p);
        push_str(&mut s, "    ");
        let pt = render_pattern(&arms[i].pattern);
        push_str(&mut s, pt.as_str());
        push_str(&mut s, " => {\n");
        let b = render_nested_block(&arms[i].body, q.as_str());
        push_str(&mut s, b.as_str());
        push_str(&mut s, p);
        push_str(&mut s, "}\n");
        i = i + 1;
    }
    s
}

fn render_nested_plain(ss: &Vec<Stmt>, p: &str) -> (r: String)
    ensures
        r@ == nested_plain(ss@, p@, ss@.len()),
{
    let mut s = String::new();
    let mut i: usize = 0;
    while i < ss.len()
        invariant
            i <= ss@.len(),
            s@ == nested_plain(ss@, p@, i as nat),
        decreases ss@.len() - i,
    {
        let t = render_nested(&ss[i], p);
        push_str(&mut s, t.as_str());
        i = i + 1;
    }
    s
}

fn opt_eq_text(o: &Option<String>, t: &str) -> (r: bool)
    ensures
        r == (opt_text(*o) == Some(t@)),
{
    match o {
        Some(v) => str_eq(v.as_str(), t),
        None => false,
    }
}

fn render_top(st: &Stmt, so: &Option<String>) -> (r: String)
    ensures
        r@ == top_text(*st, opt_text(*so)),
{
    match st {
        Stmt::MutateState(asg) => {
            let mut s = String::new();
            let mut i: usize = 0;
            while i < asg.len()
                invariant
                    i <= asg@.len(),
                    s@ == top_assigns(asg@, i as nat),
                decreases asg@.len() - i,
            {
                push_str(&mut s, "    ");
                let t = render_assign_code(&asg[i]);
                push_str(&mut s, t.as_str());
                push_str(&mut s, ";\n");
                i = i + 1;
            }
            assert(s@ == top_assigns(asg@, asg@.len()));
            assert(top_text(*st, opt_text(*so)) == top_assigns(asg@, asg@.len()));
            s
        },
        Stmt::Assign(a) => {
            let tv: &str = match &a.target {
                Expr::Var(v) => v.as_str(),
                _ => {
                    proof {
                        reveal_strlit("");
                    }
                    ""
                },
            };
            assert(tv@ == target_var_spec(a.target));
            if opt_eq_text(so, tv) {
                let mut s = string_of("    let ");
                push_str(&mut s, tv);
                push_str(&mut s, " = ");
                let v = render_expr(&a.value);
                push_str(&mut s, v.as_str());
                push_str(&mut s, ";\n");
                assert(s@ == top_text(*st, opt_text(*so)));
                s
            } else {
                let mut s = string_of("    ");
                let t = render_assign_code(a);
                push_str(&mut s, t.as_str());
                push_str(&mut s, ";\n");
                assert(s@ == top_text(*st, opt_text(*so)));
                s
            }
        },
        Stmt::Let(lb) => {
            let mut s = string_of("    ");
            let t = render_let(lb);
            push_str(&mut s, t.as_str());
            push_char(&mut s, '\n');
            s
        },
        Stmt::If(is) => {
            let mut s = string_of("    if ");
            let c = render_expr(&is.condition);
            push_str(&mut s, c.as_str());
            push_str(&mut s, " {\n");
            let b = render_nested_plain(&is.then_body, "        ");
            push_str(&mut s, b.as_str());
            push_str(&mut s, "    }");
            match &is.else_body {
                Some(eb) => {
                    push_str(&mut s, " else {\n");
                    let e = render_nested_plain(eb, "        ");
                    push_str(&mut s, e.as_str());
                    push_str(&mut s, "    }");
                },
                None => {},
            }
            push_char(&mut s, '\n');
            assert(s@ == top_text(*st, opt_text(*so)));
            s
        },
        Stmt::Match(ms) => {
            let mut s = string_of("    match ");
            let c = render_expr(&ms.scrutinee);
            push_str(&mut s, c.as_str());
            push_str(&mut s, " {\n");
            let mut i: usize = 0;
            while i < ms.arms.len()
                invariant
                    i <= ms.arms@.len(),
                    s@ == "    match "@ + rust_expr(ms.scrutinee) + " {\n"@ + top_arms(ms.arms@, i as nat),
                decreases ms.arms@.len() - i,
            {
                push_str(&mut s, "        ");
                let pt = render_pattern(&ms.arms[i].pattern);
                push_str(&mut s, pt.as_str());
                push_str(&mut s, " => {\n");
                let b = render_nested_plain(&ms.arms[i].body, "            ");
                push_str(&mut s, b.as_str());
                push_str(&mut s, "        }\n");
                i = i + 1;
            }
            push_str(&mut s, "    }\n");
            assert(s@ == top_text(*st, opt_text(*so)));
            s
        },
        Stmt::Return(e) => match e {
            Some(x) => {
                let mut s = string_of("    return ");
                let v = render_expr(x);
                push_str(&mut s, v.as_str());
                push_str(&mut s, ";\n");
                s
            },
            None => string_of("    return;\n"),
        },
    }
}

/// Render `f` as the Rust function `name` with body `stmts`: a doc comment
/// with its signature and contract, the generated signature, the body, and
/// the scalar return value when there is one.
pub fn render_func_named(name: &str, f: &Func, stmts: &Vec<Stmt>, types: &TypeFields) -> (r: String)
    requires
        tf_wf(types@),
    ensures
        r@ == func_text(name@, *f, stmts@, analysis_spec(*f, stmts@, types@)),
{
    let analysis = analyze_func(f, stmts, types);
    let ghost an = analysis_spec(*f, stmts@, types@);
    let mut s = string_of("/// ");
    push_str(&mut s, name);
    push_char(&mut s, '(');
    let sp = render_params_sig(f);
    push_str(&mut s, sp.as_str());
    push_str(&mut s, ")\n");
    let d1 = render_doc_lines(&f.requires, "/// requires: ");
    push_str(&mut s, d1.as_str());
    let d2 = render_doc_lines(&f.ensures, "/// ensures:  ");
    push_str(&mut s, d2.as_str());
    push_str(&mut s, "pub fn ");
    push_str(&mut s, name);
    push_char(&mut s, '(');
    let mut decls = String::new();
    let mut i: usize = 0;
    while i < analysis.inputs.len()
        invariant
            i <= analysis.inputs@.len(),
            inputs_view(analysis.inputs@) == an.0,
            decls@ == param_decls(an.0, i as nat),
        decreases analysis.inputs@.len() - i,
    {
        if i > 0 {
            push_str(&mut decls, ", ");
        }
        let d = render_param_decl(&analysis.inputs[i]);
        assert(input_view(analysis.inputs@[i as int]) == an.0[i as int]);
        push_str(&mut decls, d.as_str());
        i = i + 1;
    }
    push_str(&mut s, decls.as_str());
    push_char(&mut s, ')');
    if analysis.scalar_out.is_some() {
        push_str(&mut s, " -> i64");
    }
    push_str(&mut s, " {\n");
    let mut body = String::new();
    let mut k: usize = 0;
    while k < stmts.len()
        invariant
            k <= stmts@.len(),
            opt_text(analysis.scalar_out) == an.1,
            body@ == top_block(stmts@, an.1, k as nat),
        decreases stmts@.len() - k,
    {
        let t = render_top(&stmts[k], &analysis.scalar_out);
        push_str(&mut body, t.as_str());
        k = k + 1;
    }
    push_str(&mut s, body.as_str());
    match &analysis.scalar_out {
        Some(v) => {
            push_str(&mut s, "    ");
            push_str(&mut s, v.as_str());
            push_char(&mut s, '\n');
        },
        None => {},
    }
    push_str(&mut s, "}\n");
    s
}

/// Render `f` as a Rust function with body `stmts`.
pub fn render_func(f: &Func, stmts: &Vec<Stmt>, types: &TypeFields) -> (r: String)
    requires
        tf_wf(types@),
    ensures
        r@ == func_text(f.name@, *f, stmts@, analysis_spec(*f, stmts@, types@)),
{
    render_func_named(f.name.as_str(), f, stmts, types)
}

fn render_param_decl(ip: &InputParam) -> (r: String)
    ensures
        r@ == param_decl(input_view(*ip)),
{
    match ip {
        InputParam::Scalar { name } => concat(name.as_str(), ": i64"),
        InputParam::Struct { name, ty, mutated, .. } => {
            let mut s = concat(name.as_str(), ": ");
            if *mutated {
                push_str(&mut s, "&mut ");
            } else {
                push_char(&mut s, '&');
            }
            push_str(&mut s, ty.as_str());
            s
        },
    }
}

/// `name: Type` for each parameter, separated by `, `.
pub fn render_params_sig(f: &Func) -> (r: String)
    ensures
        r@ == sig_params(f.params@, f.params@.len()),
{
    let mut s = String::new();
    let mut i: usize = 0;
    while i < f.params.len()
        invariant
            i <= f.params@.len(),
            s@ == sig_params(f.params@, i as nat),
        decreases f.params@.len() - i,
    {
        if i > 0 {
            push_str(&mut s, ", ");
        }
        push_str(&mut s, f.params[i].name.as_str());
        push_str(&mut s, ": ");
        push_str(&mut s, f.params[i].ty.name());
        i = i + 1;
    }
    s
}

fn render_doc_lines(es: &Vec<Expr>, label: &str) -> (r: String)
    ensures
        r@ == doc_lines(es@, label@, es@.len()),
{
    let mut s = String::new();
    let mut i: usize = 0;
    while i < es.len()
        invariant
            i <= es@.len(),
            s@ == doc_lines(es@, label@, i as nat),
        decreases es@.len() - i,
    {
        push_str(&mut s, label);
        let t = render_expr_doc(&es[i]);
        push_str(&mut s, t.as_str());
        push_char(&mut s, '\n');
        i = i + 1;
    }
    s
}

// ---------------------------------------------------------------------------
// Ejected functions
// ---------------------------------------------------------------------------

/// A contract clause as a runtime check in the guard of an ejected function:
/// fields under `old(..)` read their snapshot `__old_<base>_<field>`, and in
/// a postcondition the scalar return name reads `__ret`.
pub open spec fn guard_expr(e: Expr, so: Option<Seq<char>>, post: bool, in_old: bool) -> Seq<char>
    decreases e,
{
    match e {
        Expr::Int(n) => int_text(n as int),
        Expr::Var(v) => if post && !in_old && so == Some(v@) { "__ret"@ } else { v@ },
        Expr::Field { base, field } => if in_old {
            "__old_"@ + base@ + seq!['_'] + field@
        } else {
            base@ + seq!['.'] + field@
        },
        Expr::Old(x) => guard_expr(*x, so, post, true),
        Expr::Unary { expr, .. } => "-"@ + guard_expr(*expr, so, post, in_old),
        Expr::Bin { op, lhs, rhs } => guard_expr(*lhs, so, post, in_old) + seq![' '] + bin_op_spec(op) + seq![' '] + guard_expr(*rhs, so, post, in_old),
        _ => rust_expr(e),
    }
}

/// `s` with `\` and `"` escaped for a Rust string literal.
pub open spec fn escape_spec(s: Seq<char>) -> Seq<char>
    decreases s.len(),
{
    if s.len() == 0 {
        Seq::empty()
    } else {
        (if s[0] == '\\' { seq!['\\', '\\'] } else if s[0] == '"' { seq!['\\', '"'] } else { seq![s[0]] }) + escape_spec(s.drop_first())
    }
}

/// `acc` extended by the fields `e` reads under `old(..)`, each once, in
/// order of first occurrence.
pub open spec fn walk_old(e: Expr, in_old: bool, acc: Seq<(Seq<char>, Seq<char>)>) -> Seq<(Seq<char>, Seq<char>)>
    decreases e,
{
    match e {
        Expr::Field { base, field } => if in_old && !acc.contains((base@, field@)) { acc.push((base@, field@)) } else { acc },
        Expr::Old(x) => walk_old(*x, true, acc),
        Expr::Unary { expr, .. } => walk_old(*expr, in_old, acc),
        Expr::Bin { lhs, rhs, .. } => walk_old(*rhs, in_old, walk_old(*lhs, in_old, acc)),
        _ => acc,
    }
}

/// The fields the first `n` clauses read under `old(..)`.
pub open spec fn old_fields(es: Seq<Expr>, n: nat) -> Seq<(Seq<char>, Seq<char>)>
    decreases n,
{
    if n == 0 || n > es.len() { Seq::empty() } else { walk_old(es[n - 1], false, old_fields(es, (n - 1) as nat)) }
}

/// The input names, separated by `, `.
pub open spec fn call_args(ins: Seq<InputV>, n: nat) -> Seq<char>
    decreases n,
{
    if n == 0 || n > ins.len() {
        Seq::empty()
    } else if n == 1 {
        ins[0].1
    } else {
        call_args(ins, (n - 1) as nat) + ", "@ + ins[n - 1].1
    }
}

/// One runtime check per clause.
pub open spec fn guards(es: Seq<Expr>, so: Option<Seq<char>>, post: bool, kind: Seq<char>, name: Seq<char>, n: nat) -> Seq<char>
    decreases n,
{
    if n == 0 || n > es.len() {
        Seq::empty()
    } else {
        guards(es, so, post, kind, name, (n - 1) as nat) + "    assert!("@ + guard_expr(es[n - 1], so, post, false)
            + ", \"telos: "@ + kind + " violated in `"@ + name + "`: "@ + escape_spec(doc_expr(es[n - 1])) + "\");\n"@
    }
}

/// The snapshots of the first `n` old fields.
pub open spec fn old_lets(ps: Seq<(Seq<char>, Seq<char>)>, n: nat) -> Seq<char>
    decreases n,
{
    if n == 0 || n > ps.len() {
        Seq::empty()
    } else {
        old_lets(ps, (n - 1) as nat) + "    let __old_"@ + ps[n - 1].0 + seq!['_'] + ps[n - 1].1 + " = "@ + ps[n - 1].0 + seq!['.'] + ps[n - 1].1 + ";\n"@
    }
}

/// An ejected function: the editable opaque block `<name>_impl`, then the
/// guard `<name>` that checks the `requires` clauses, snapshots the fields
/// `ensures` reads under `old(..)`, calls the block and checks the `ensures`
/// clauses.
pub open spec fn ejected_text(f: Func, stmts: Seq<Stmt>, tf: Seq<(String, Vec<String>)>) -> Seq<char> {
    let an = analysis_spec(f, stmts, tf);
    eject_block_text(f, stmts, an) + guard_header(f, an) + guard_body(f, an)
}

/// The opaque block of an ejected function.
pub open spec fn eject_block_text(f: Func, stmts: Seq<Stmt>, an: (Seq<InputV>, Option<Seq<char>>)) -> Seq<char> {
    "// ==== EJECTED (rust): trusted opaque block for `"@ + f.name@ + "`. Edit this freely. ====\n"@
        + func_text(f.name@ + "_impl"@, f, stmts, an) + seq!['\n']
}

/// The guard's comment, doc comment and signature.
pub open spec fn guard_header(f: Func, an: (Seq<InputV>, Option<Seq<char>>)) -> Seq<char> {
    "// ==== Boundary contract guard for `"@ + f.name@ + "` (generated; do not edit). ====\n"@
        + "/// "@ + f.name@ + seq!['('] + sig_params(f.params@, f.params@.len()) + ")\n"@
        + doc_lines(f.requires@, "/// requires: "@, f.requires@.len())
        + doc_lines(f.ensures@, "/// ensures:  "@, f.ensures@.len())
        + "pub fn "@ + f.name@ + seq!['('] + param_decls(an.0, an.0.len()) + seq![')']
        + (if an.1 is Some { " -> i64"@ } else { Seq::empty() }) + " {\n"@
}

/// The guard's body.
pub open spec fn guard_body(f: Func, an: (Seq<InputV>, Option<Seq<char>>)) -> Seq<char> {
    let so = an.1;
    let impl_name = f.name@ + "_impl"@;
    let olds = old_fields(f.ensures@, f.ensures@.len());
    guards(f.requires@, so, false, "precondition"@, f.name@, f.requires@.len())
        + old_lets(olds, olds.len())
        + (if so is Some { "    let __ret = "@ } else { "    "@ }) + impl_name + seq!['('] + call_args(an.0, an.0.len()) + ");\n"@
        + guards(f.ensures@, so, true, "postcondition"@, f.name@, f.ensures@.len())
        + (if so is Some { "    __ret\n"@ } else { Seq::empty() })
        + "}\n"@
}

fn render_guard(e: &Expr, so: &Option<String>, post: bool, in_old: bool) -> (r: String)
    ensures
        r@ == guard_expr(*e, opt_text(*so), post, in_old),
    decreases e,
{
    match e {
        Expr::Int(n) => i64_text(*n),
        Expr::Var(v) => {
            if post && !in_old && opt_eq_text(so, v.as_str()) {
                string_of("__ret")
            } else {
                copy_string(v)
            }
        },
        Expr::Field { base, field } => {
            if in_old {
                let mut s = string_of("__old_");
                push_str(&mut s, base.as_str());
                push_char(&mut s, '_');
                push_str(&mut s, field.as_str());
                s
            } else {
                let mut s = copy_string(base);
                push_char(&mut s, '.');
                push_str(&mut s, field.as_str());
                s
            }
        },
        Expr::Old(x) => render_guard(x, so, post, true),
        Expr::Unary { expr, .. } => {
            let mut s = string_of("-");
            let t = render_guard(expr, so, post, in_old);
            push_str(&mut s, t.as_str());
            s
        },
        Expr::Bin { op, lhs, rhs } => {
            let mut s = render_guard(lhs, so, post, in_old);
            push_char(&mut s, ' ');
            push_str(&mut s, bin_op_text(*op));
            push_char(&mut s, ' ');
            let t = render_guard(rhs, so, post, in_old);
            push_str(&mut s, t.as_str());
            s
        },
        other => render_expr(other),
    }
}

fn escape(s: &str) -> (r: String)
    ensures
        r@ == escape_spec(s@),
{
    let cs = chars_of(s);
    let mut out = String::new();
    let mut i: usize = 0;
    assert(cs@.subrange(0, cs@.len() as int) == cs@);
    while i < cs.len()
        invariant
            i <= cs@.len(),
            cs@ == s@,
            out@ + escape_spec(cs@.subrange(i as int, cs@.len() as int)) == escape_spec(s@),
        decreases cs@.len() - i,
    {
        let ghost sub = cs@.subrange(i as int, cs@.len() as int);
        assert(sub.drop_first() == cs@.subrange(i + 1, cs@.len() as int));
        assert(sub[0] == cs@[i as int]);
        let c = cs[i];
        if c == '\\' {
            push_char(&mut out, '\\');
            push_char(&mut out, '\\');
        } else if c == '"' {
            push_char(&mut out, '\\');
            push_char(&mut out, '"');
        } else {
            push_char(&mut out, c);
        }
        i = i + 1;
    }
    out
}

fn note_old(e: &Expr, in_old: bool, out: &mut Vec<(String, String)>)
    ensures
        pairs_view(final(out)@) == walk_old(*e, in_old, pairs_view(old(out)@)),
    decreases e,
{
    match e {
        Expr::Field { base, field } => {
            if in_old {
                match crate::extract::pair_index(out, base.as_str(), field.as_str()) {
                    Some(i) => {
                        assert(pairs_view(out@).contains((base@, field@)));
                    },
                    None => {
                        let ghost prev = out@;
                        out.push((copy_string(base), copy_string(field)));
                        assert(pairs_view(out@) == pairs_view(prev).push((base@, field@)));
                    },
                }
            }
        },
        Expr::Old(x) => note_old(x, true, out),
        Expr::Unary { expr, .. } => note_old(expr, in_old, out),
        Expr::Bin { lhs, rhs, .. } => {
            note_old(lhs, in_old, out);
            note_old(rhs, in_old, out);
        },
        _ => {},
    }
}

/// Render `f` ejected: an opaque block plus a guard that enforces its
/// contract at the boundary.
pub fn render_rust_ejected(f: &Func, stmts: &Vec<Stmt>, types: &TypeFields) -> (r: String)
    requires
        tf_wf(types@),
    ensures
        r@ == ejected_text(*f, stmts@, types@),
{
    let analysis = analyze_func(f, stmts, types);
    let impl_name = concat(f.name.as_str(), "_impl");
    let mut s = string_of("// ==== EJECTED (rust): trusted opaque block for `");
    push_str(&mut s, f.name.as_str());
    push_str(&mut s, "`. Edit this freely. ====\n");
    let body = render_func_named(impl_name.as_str(), f, stmts, types);
    push_str(&mut s, body.as_str());
    push_char(&mut s, '\n');
    let h = render_guard_header(f, &analysis);
    push_str(&mut s, h.as_str());
    let b = render_guard_body(f, &analysis);
    push_str(&mut s, b.as_str());
    s
}

fn render_decls(ins: &Vec<InputParam>) -> (r: (String, String))
    ensures
        r.0@ == param_decls(inputs_view(ins@), ins@.len()),
        r.1@ == call_args(inputs_view(ins@), ins@.len()),
{
    let ghost iv = inputs_view(ins@);
    let mut decls = String::new();
    let mut args = String::new();
    let mut i: usize = 0;
    while i < ins.len()
        invariant
            i <= ins@.len(),
            iv == inputs_view(ins@),
            decls@ == param_decls(iv, i as nat),
            args@ == call_args(iv, i as nat),
        decreases ins@.len() - i,
    {
        if i > 0 {
            push_str(&mut decls, ", ");
            push_str(&mut args, ", ");
        }
        let d = render_param_decl(&ins[i]);
        assert(input_view(ins@[i as int]) == iv[i as int]);
        push_str(&mut decls, d.as_str());
        match &ins[i] {
            InputParam::Scalar { name } => push_str(&mut args, name.as_str()),
            InputParam::Struct { name, .. } => push_str(&mut args, name.as_str()),
        }
        i = i + 1;
    }
    (decls, args)
}

fn render_guard_header(f: &Func, analysis: &FuncAnalysis) -> (r: String)
    ensures
        r@ == guard_header(*f, (inputs_view(analysis.inputs@), opt_text(analysis.scalar_out))),
{
    let mut s = string_of("// ==== Boundary contract guard for `");
    push_str(&mut s, f.name.as_str());
    push_str(&mut s, "` (generated; do not edit). ====\n");
    push_str(&mut s, "/// ");
    push_str(&mut s, f.name.as_str());
    push_char(&mut s, '(');
    let sp = render_params_sig(f);
    push_str(&mut s, sp.as_str());
    push_str(&mut s, ")\n");
    let d1 = render_doc_lines(&f.requires, "/// requires: ");
    push_str(&mut s, d1.as_str());
    let d2 = render_doc_lines(&f.ensures, "/// ensures:  ");
    push_str(&mut s, d2.as_str());
    push_str(&mut s, "pub fn ");
    push_str(&mut s, f.name.as_str());
    push_char(&mut s, '(');
    let (decls, _) = render_decls(&analysis.inputs);
    push_str(&mut s, decls.as_str());
    push_char(&mut s, ')');
    if analysis.scalar_out.is_some() {
        push_str(&mut s, " -> i64");
    }
    push_str(&mut s, " {\n");
    s
}

fn render_old_lets(f: &Func) -> (r: String)
    ensures
        r@ == old_lets(old_fields(f.ensures@, f.ensures@.len()), old_fields(f.ensures@, f.ensures@.len()).len()),
{
    let mut olds: Vec<(String, String)> = Vec::new();
    let mut k: usize = 0;
    while k < f.ensures.len()
        invariant
            k <= f.ensures@.len(),
            pairs_view(olds@) == old_fields(f.ensures@, k as nat),
        decreases f.ensures@.len() - k,
    {
        note_old(&f.ensures[k], false, &mut olds);
        k = k + 1;
    }
    let ghost ov = pairs_view(olds@);
    let mut lets = String::new();
    let mut k: usize = 0;
    while k < olds.len()
        invariant
            k <= olds@.len(),
            ov == pairs_view(olds@),
            lets@ == old_lets(ov, k as nat),
        decreases olds@.len() - k,
    {
        push_str(&mut lets, "    let __old_");
        push_str(&mut lets, olds[k].0.as_str());
        push_char(&mut lets, '_');
        push_str(&mut lets, olds[k].1.as_str());
        push_str(&mut lets, " = ");
        push_str(&mut lets, olds[k].0.as_str());
        push_char(&mut lets, '.');
        push_str(&mut lets, olds[k].1.as_str());
        push_str(&mut lets, ";\n");
        k = k + 1;
    }
    lets
}

fn render_guard_body(f: &Func, analysis: &FuncAnalysis) -> (r: String)
    ensures
        r@ == guard_body(*f, (inputs_view(analysis.inputs@), opt_text(analysis.scalar_out))),
{
    let impl_name = concat(f.name.as_str(), "_impl");
    let mut s = render_guards(&f.requires, &analysis.scalar_out, false, "precondition", f.name.as_str());
    let lets = render_old_lets(f);
    push_str(&mut s, lets.as_str());
    if analysis.scalar_out.is_some() {
        push_str(&mut s, "    let __ret = ");
    } else {
        push_str(&mut s, "    ");
    }
    push_str(&mut s, impl_name.as_str());
    push_char(&mut s, '(');
    let (_, args) = render_decls(&analysis.inputs);
    push_str(&mut s, args.as_str());
    push_str(&mut s, ");\n");
    let g2 = render_guards(&f.ensures, &analysis.scalar_out, true, "postcondition", f.name.as_str());
    push_str(&mut s, g2.as_str());
    if analysis.scalar_out.is_some() {
        push_str(&mut s, "    __ret\n");
    }
    push_str(&mut s, "}\n");
    s
}

fn render_guards(es: &Vec<Expr>, so: &Option<String>, post: bool, kind: &str, name: &str) -> (r: String)
    ensures
        r@ == guards(es@, opt_text(*so), post, kind@, name@, es@.len()),
{
    let mut s = String::new();
    let mut i: usize = 0;
    while i < es.len()
        invariant
            i <= es@.len(),
            s@ == guards(es@, opt_text(*so), post, kind@, name@, i as nat),
        decreases es@.len() - i,
    {
        push_str(&mut s, "    assert!(");
        let g = render_guard(&es[i], so, post, false);
        push_str(&mut s, g.as_str());
        push_str(&mut s, ", \"telos: ");
        push_str(&mut s, kind);
        push_str(&mut s, " violated in `");
        push_str(&mut s, name);
        push_str(&mut s, "`: ");
        let d = render_expr_doc(&es[i]);
        let e = escape(d.as_str());
        push_str(&mut s, e.as_str());
        push_str(&mut s, "\");\n");
        i = i + 1;
    }
    s
}

// ---------------------------------------------------------------------------
// Modules and programs
// ---------------------------------------------------------------------------

/// One `pub <field>: i64,` line per field.
pub open spec fn field_lines(fs: Seq<Seq<char>>, n: nat) -> Seq<char>
    decreases n,
{
    if n == 0 || n > fs.len() { Seq::empty() } else { field_lines(fs, (n - 1) as nat) + "    pub "@ + fs[n - 1] + ": i64,\n"@ }
}

/// The struct of a type with fields; nothing for one without.
pub open spec fn struct_text(e: (String, Vec<String>)) -> Seq<char> {
    if e.1@.len() == 0 {
        Seq::empty()
    } else {
        "pub struct "@ + e.0@ + " {\n"@ + field_lines(texts(e.1@), e.1@.len()) + "}\n\n"@
    }
}

pub open spec fn structs_text(tf: Seq<(String, Vec<String>)>, n: nat) -> Seq<char>
    decreases n,
{
    if n == 0 || n > tf.len() { Seq::empty() } else { structs_text(tf, (n - 1) as nat) + struct_text(tf[n - 1]) }
}

/// The first `n` invariant clauses, conjoined.
pub open spec fn inv_conds(cs: Seq<Expr>, n: nat) -> Seq<char>
    decreases n,
{
    if n == 0 || n > cs.len() {
        Seq::empty()
    } else if n == 1 {
        inv_expr(cs[0])
    } else {
        inv_conds(cs, (n - 1) as nat) + " && "@ + inv_expr(cs[n - 1])
    }
}

/// An invariant as a `satisfies_invariants` method of its struct.
pub open spec fn inv_text(inv: Invariant) -> Seq<char> {
    "impl "@ + inv.name@ + " {\n    pub fn satisfies_invariants(&self) -> bool {\n        "@
        + inv_conds(inv.constraints@, inv.constraints@.len()) + "\n    }\n}\n\n"@
}

pub open spec fn invs_text(items: Seq<Item>, n: nat) -> Seq<char>
    decreases n,
{
    if n == 0 || n > items.len() {
        Seq::empty()
    } else {
        invs_text(items, (n - 1) as nat) + match items[n - 1] {
            Item::Invariant(inv) => inv_text(inv),
            _ => Seq::empty(),
        }
    }
}

/// The verified body the last outcome for `name` carries.
pub open spec fn body_for(os: Seq<FuncOutcome>, name: Seq<char>) -> Option<Vec<Stmt>>
    decreases os.len(),
{
    if os.len() == 0 {
        None
    } else if os.last().func_name@ == name {
        Some(os.last().final_candidate.stmts)
    } else {
        body_for(os.drop_last(), name)
    }
}

/// The body a function is generated with: its verified body when an outcome
/// carries one, else the body written in the source.
pub open spec fn func_body(os: Seq<FuncOutcome>, f: Func) -> Seq<Stmt> {
    match body_for(os, f.name@) {
        Some(b) => b@,
        None => f.body@,
    }
}

/// A function of a module, ejected or not, followed by a blank line.
pub open spec fn func_item_text(f: Func, os: Seq<FuncOutcome>, tf: Seq<(String, Vec<String>)>) -> Seq<char> {
    let body = func_body(os, f);
    (if has_eject_spec(f.attributes@) {
        ejected_text(f, body, tf)
    } else {
        func_text(f.name@, f, body, analysis_spec(f, body, tf))
    }) + seq!['\n']
}

pub open spec fn funcs_text(items: Seq<Item>, os: Seq<FuncOutcome>, tf: Seq<(String, Vec<String>)>, n: nat) -> Seq<char>
    decreases n,
{
    if n == 0 || n > items.len() {
        Seq::empty()
    } else {
        funcs_text(items, os, tf, (n - 1) as nat) + match items[n - 1] {
            Item::Func(f) => func_item_text(f, os, tf),
            _ => Seq::empty(),
        }
    }
}

/// A module: a banner with its routing target, the invariant methods, then
/// the functions. The structs are declared once, for the whole program.
pub open spec fn module_text(m: Module, os: Seq<FuncOutcome>, tf: Seq<(String, Vec<String>)>) -> Seq<char> {
    "// ===== module "@ + m.name@ + " (target: "@ + target_text(target_spec(m.attributes@)) + ") =====\n"@
        + invs_text(m.items@, m.items@.len())
        + funcs_text(m.items@, os, tf, m.items@.len())
}

pub open spec fn modules_text(ms: Seq<Module>, os: Seq<FuncOutcome>, tf: Seq<(String, Vec<String>)>, n: nat) -> Seq<char>
    decreases n,
{
    if n == 0 || n > ms.len() { Seq::empty() } else { modules_text(ms, os, tf, (n - 1) as nat) + module_text(ms[n - 1], os, tf) + seq!['\n'] }
}

/// The fields all modules give struct `t`.
pub open spec fn all_struct_fields(ms: Seq<Module>, t: Seq<char>, n: nat) -> Set<Seq<char>>
    decreases n,
{
    if n == 0 || n > ms.len() { Set::empty() } else { all_struct_fields(ms, t, (n - 1) as nat) + struct_fields(ms[n - 1].items@, t) }
}

/// The lines that open every generated program.
pub open spec fn program_header() -> Seq<char> {
    "// Generated by tpt-telos. Do not edit by hand.\n// Mathematical contracts were verified by the tpt-telos SMT core.\n#![allow(dead_code)]\n\n"@
}

fn find_body<'a>(os: &'a [FuncOutcome], name: &String) -> (r: Option<&'a Vec<Stmt>>)
    ensures
        match r {
            Some(b) => body_for(os@, name@) == Some(*b),
            None => body_for(os@, name@) is None,
        },
{
    let mut i: usize = os.len();
    assert(os@.take(os@.len() as int) == os@);
    while i > 0
        invariant
            i <= os@.len(),
            body_for(os@, name@) == body_for(os@.take(i as int), name@),
        decreases i,
    {
        assert(os@.take(i as int).drop_last() == os@.take(i - 1));
        assert(os@.take(i as int).last() == os@[i - 1]);
        if str_eq(os[i - 1].func_name.as_str(), name.as_str()) {
            return Some(&os[i - 1].final_candidate.stmts);
        }
        i = i - 1;
    }
    None
}

fn render_struct(e: &(String, Vec<String>)) -> (r: String)
    ensures
        r@ == struct_text(*e),
{
    if e.1.len() == 0 {
        return String::new();
    }
    let mut s = string_of("pub struct ");
    push_str(&mut s, e.0.as_str());
    push_str(&mut s, " {\n");
    let mut lines = String::new();
    let mut i: usize = 0;
    while i < e.1.len()
        invariant
            i <= e.1@.len(),
            lines@ == field_lines(texts(e.1@), i as nat),
        decreases e.1@.len() - i,
    {
        push_str(&mut lines, "    pub ");
        push_str(&mut lines, e.1[i].as_str());
        push_str(&mut lines, ": i64,\n");
        i = i + 1;
    }
    push_str(&mut s, lines.as_str());
    push_str(&mut s, "}\n\n");
    s
}

fn render_inv_method(inv: &Invariant) -> (r: String)
    ensures
        r@ == inv_text(*inv),
{
    let mut conds = String::new();
    let mut i: usize = 0;
    while i < inv.constraints.len()
        invariant
            i <= inv.constraints@.len(),
            conds@ == inv_conds(inv.constraints@, i as nat),
        decreases inv.constraints@.len() - i,
    {
        if i > 0 {
            push_str(&mut conds, " && ");
        }
        let c = render_inv(&inv.constraints[i]);
        push_str(&mut conds, c.as_str());
        i = i + 1;
    }
    let mut s = string_of("impl ");
    push_str(&mut s, inv.name.as_str());
    push_str(&mut s, " {\n    pub fn satisfies_invariants(&self) -> bool {\n        ");
    push_str(&mut s, conds.as_str());
    push_str(&mut s, "\n    }\n}\n\n");
    s
}

fn render_func_item(f: &Func, outcomes: &[FuncOutcome], types: &TypeFields) -> (r: String)
    requires
        tf_wf(types@),
    ensures
        r@ == func_item_text(*f, outcomes@, types@),
{
    let body: &Vec<Stmt> = match find_body(outcomes, &f.name) {
        Some(b) => b,
        None => &f.body,
    };
    let mut s = if f.is_ejected() {
        render_rust_ejected(f, body, types)
    } else {
        render_func(f, body, types)
    };
    push_char(&mut s, '\n');
    s
}

/// Render one module with the given struct types and verified bodies.
pub fn generate_module(module: &Module, outcomes: &[FuncOutcome], types: &TypeFields) -> (r: String)
    requires
        tf_wf(types@),
    ensures
        r@ == module_text(*module, outcomes@, types@),
{
    let target = route(module.attributes.as_slice()).target;
    let mut s = string_of("// ===== module ");
    push_str(&mut s, module.name.as_str());
    push_str(&mut s, " (target: ");
    push_str(&mut s, target.as_str());
    push_str(&mut s, ") =====\n");
    let items = &module.items;
    let mut invs = String::new();
    let mut i: usize = 0;
    while i < items.len()
        invariant
            i <= items@.len(),
            invs@ == invs_text(items@, i as nat),
        decreases items@.len() - i,
    {
        match &items[i] {
            Item::Invariant(inv) => {
                let t = render_inv_method(inv);
                push_str(&mut invs, t.as_str());
            },
            _ => {},
        }
        i = i + 1;
    }
    push_str(&mut s, invs.as_str());
    let mut funcs = String::new();
    let mut i: usize = 0;
    while i < items.len()
        invariant
            i <= items@.len(),
            tf_wf(types@),
            funcs@ == funcs_text(items@, outcomes@, types@, i as nat),
        decreases items@.len() - i,
    {
        match &items[i] {
            Item::Func(f) => {
                let t = render_func_item(f, outcomes, types);
                push_str(&mut funcs, t.as_str());
            },
            _ => {},
        }
        i = i + 1;
    }
    push_str(&mut s, funcs.as_str());
    s
}

/// Generate one self-contained Rust library for all modules: the struct
/// types are collected across every module and declared once, after the
/// header; then each module, with each function generated with the verified
/// body of the last outcome that names it (else its source body).
pub fn generate_program(modules: &[Module], outcomes: &[FuncOutcome]) -> (r: String)
    ensures
        exists|tf: Seq<(String, Vec<String>)>|
            tf_wf(tf)
            && (forall|t: Seq<char>| #[trigger] field_set(tf, t) == all_struct_fields(modules@, t, modules@.len()))
            && r@ == program_header() + structs_text(tf, tf.len()) + modules_text(modules@, outcomes@, tf, modules@.len()),
{
    let mut types: TypeFields = Vec::new();
    proof {
        assert forall|t: Seq<char>| #[trigger] field_set(types@, t) == all_struct_fields(modules@, t, 0) by {
            assert(field_set(types@, t) =~= Set::<Seq<char>>::empty());
        }
    }
    let mut i: usize = 0;
    while i < modules.len()
        invariant
            i <= modules@.len(),
            tf_wf(types@),
            forall|t: Seq<char>| #[trigger] field_set(types@, t) == all_struct_fields(modules@, t, i as nat),
        decreases modules@.len() - i,
    {
        collect_types(&modules[i], &mut types);
        i = i + 1;
    }
    let mut s = string_of("// Generated by tpt-telos. Do not edit by hand.\n// Mathematical contracts were verified by the tpt-telos SMT core.\n#![allow(dead_code)]\n\n");
    let mut structs = String::new();
    let mut i: usize = 0;
    while i < types.len()
        invariant
            i <= types@.len(),
            structs@ == structs_text(types@, i as nat),
        decreases types@.len() - i,
    {
        let t = render_struct(&types[i]);
        push_str(&mut structs, t.as_str());
        i = i + 1;
    }
    push_str(&mut s, structs.as_str());
    let mut body = String::new();
    let mut i: usize = 0;
    while i < modules.len()
        invariant
            i <= modules@.len(),
            tf_wf(types@),
            body@ == modules_text(modules@, outcomes@, types@, i as nat),
        decreases modules@.len() - i,
    {
        let m = generate_module(&modules[i], outcomes, &types);
        push_str(&mut body, m.as_str());
        push_char(&mut body, '\n');
        i = i + 1;
    }
    push_str(&mut s, body.as_str());
    s
}

} // verus!
