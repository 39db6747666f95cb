//! Source-like rendering of expressions.

use vstd::prelude::*;
use crate::ast::{Expr, IfExpr, BinOp, ExprMatchArm, Type, Pattern, type_name_spec, op_name_spec};
use crate::text::{string_of, push_str, push_char, i64_text, int_text, copy_string, usize_text, nat_digits};

verus! {

/// The source spelling of a binary operator.
pub open spec fn bin_op_spec(op: BinOp) -> Seq<char> {
    match op {
        BinOp::Add => "+"@,
        BinOp::Sub => "-"@,
        BinOp::Mul => "*"@,
        BinOp::Div => "/"@,
        BinOp::Eq => "=="@,
        BinOp::Ne => "!="@,
        BinOp::Lt => "<"@,
        BinOp::Le => "<="@,
        BinOp::Gt => ">"@,
        BinOp::Ge => ">="@,
        BinOp::And => "&&"@,
        BinOp::Or => "||"@,
    }
}

/// An `if` expression prints its then branch in the block right after the
/// condition and its else branch in the block after `else`.
pub proof fn lemma_pretty_if_branches(i: IfExpr)
    ensures
        ({
            let s = pretty_spec(Expr::If(i));
            let head = "if "@ + pretty_spec(*i.condition) + " { "@ + pretty_spec(*i.then_expr) + " }"@;
            let tail = " else { "@ + pretty_spec(*i.else_expr) + " }"@;
            &&& s.len() == head.len() + tail.len()
            &&& s.subrange(0, head.len() as int) == head
            &&& s.subrange(head.len() as int, s.len() as int) == tail
        }),
{
    let head = "if "@ + pretty_spec(*i.condition) + " { "@ + pretty_spec(*i.then_expr) + " }"@;
    let tail = " else { "@ + pretty_spec(*i.else_expr) + " }"@;
    reveal_strlit(" }");
    reveal_strlit(" } else { ");
    reveal_strlit(" else { ");
    assert(" } else { "@ + pretty_spec(*i.else_expr) + " }"@ =~= " }"@ + tail);
    assert(pretty_spec(Expr::If(i)) =~= head + tail);
}

/// The rendering of an expression: operators spaced, no parentheses added.
pub open spec fn pretty_spec(e: Expr) -> Seq<char>
    decreases e, 0nat, 0nat,
{
    match e {
        Expr::Int(n) => int_text(n as int),
        Expr::Var(v) => v@,
        Expr::Field { base, field } => base@ + seq!['.'] + field@,
        Expr::Old(x) => "old("@ + pretty_spec(*x) + seq![')'],
        Expr::Unary { op, expr } => "-"@ + pretty_spec(*expr),
        Expr::Bin { op, lhs, rhs } => pretty_spec(*lhs) + seq![' '] + bin_op_spec(op) + seq![' '] + pretty_spec(*rhs),
        Expr::Call(c) => c.func@ + seq!['('] + pretty_list_spec(c.args@, c.args@.len()) + seq![')'],
        Expr::MethodCall(m) => pretty_spec(*m.receiver) + seq!['.'] + m.method@ + seq!['('] + pretty_list_spec(m.args@, m.args@.len()) + seq![')'],
        Expr::Index(ix) => pretty_spec(*ix.receiver) + seq!['['] + pretty_spec(*ix.index) + seq![']'],
        Expr::If(i) => "if "@ + pretty_spec(*i.condition) + " { "@ + pretty_spec(*i.then_expr) + " } else { "@ + pretty_spec(*i.else_expr) + " }"@,
        Expr::Match(m) => "match "@ + pretty_spec(*m.scrutinee) + " { "@ + pretty_arms_spec(m.arms@, m.arms@.len()) + " }"@,
        Expr::Try(x) => pretty_spec(*x) + seq!['?'],
        Expr::Forall(f) => "forall "@ + f.var@ + ": "@ + type_name_spec(f.var_ty) + " { "@ + pretty_spec(*f.body) + " }"@,
        Expr::Aggregate(a) => op_name_spec(a.op) + seq!['('] + pretty_list_spec(a.args@, a.args@.len()) + seq![')'],
        Expr::Range { lo, hi } => pretty_spec(*lo) + ".."@ + pretty_spec(*hi),
    }
}

/// The renderings of the first `n` expressions, separated by `, `.
pub open spec fn pretty_list_spec(es: Seq<Expr>, n: nat) -> Seq<char>
    decreases es, 1nat, n,
{
    if n == 0 || n > es.len() {
        Seq::empty()
    } else if n == 1 {
        pretty_spec(es[0])
    } else {
        pretty_list_spec(es, (n - 1) as nat) + ", "@ + pretty_spec(es[n - 1])
    }
}

/// The first `n` arms of a `match` expression, as `... => expr`, separated
/// by `, `.
pub open spec fn pretty_arms_spec(arms: Seq<ExprMatchArm>, n: nat) -> Seq<char>
    decreases arms, 1nat, n,
{
    if n == 0 || n > arms.len() {
        Seq::empty()
    } else if n == 1 {
        "... => "@ + pretty_spec(arms[0].expr)
    } else {
        pretty_arms_spec(arms, (n - 1) as nat) + ", "@ + "... => "@ + pretty_spec(arms[n - 1].expr)
    }
}

pub fn bin_op_text(op: BinOp) -> (r: &'static str)
    ensures
        r@ == bin_op_spec(op),
{
    match op {
        BinOp::Add => "+",
        BinOp::Sub => "-",
        BinOp::Mul => "*",
        BinOp::Div => "/",
        BinOp::Eq => "==",
        BinOp::Ne => "!=",
        BinOp::Lt => "<",
        BinOp::Le => "<=",
        BinOp::Gt => ">",
        BinOp::Ge => ">=",
        BinOp::And => "&&",
        BinOp::Or => "||",
    }
}

/// Source-like rendering of an expression.
pub fn pretty(e: &Expr) -> (r: String)
    ensures
        r@ == pretty_spec(*e),
    decreases e, 0nat,
{
    match e {
        Expr::Int(n) => i64_text(*n),
        Expr::Var(v) => copy_string(v),
        Expr::Field { base, field } => {
            let mut s = copy_string(base);
            push_char(&mut s, '.');
            push_str(&mut s, field.as_str());
            s
        },
        Expr::Old(inner) => {
            let mut s = string_of("old(");
            let t = pretty(inner);
            push_str(&mut s, t.as_str());
            push_char(&mut s, ')');
            s
        },
        Expr::Unary { op, expr } => {
            let mut s = string_of("-");
            let t = pretty(expr);
            push_str(&mut s, t.as_str());
            s
        },
        Expr::Bin { op, lhs, rhs } => {
            let mut s = pretty(lhs);
            push_char(&mut s, ' ');
            push_str(&mut s, bin_op_text(*op));
            push_char(&mut s, ' ');
            let t = pretty(rhs);
            push_str(&mut s, t.as_str());
            s
        },
        Expr::Call(c) => {
            let mut s = copy_string(&c.func);
            push_char(&mut s, '(');
            let a = pretty_list(&c.args);
            push_str(&mut s, a.as_str());
            push_char(&mut s, ')');
            s
        },
        Expr::MethodCall(m) => {
            let mut s = pretty(&m.receiver);
            push_char(&mut s, '.');
            push_str(&mut s, m.method.as_str());
            push_char(&mut s, '(');
            let a = pretty_list(&m.args);
            push_str(&mut s, a.as_str());
            push_char(&mut s, ')');
            s
        },
        Expr::Index(ix) => {
            let mut s = pretty(&ix.receiver);
            push_char(&mut s, '[');
            let t = pretty(&ix.index);
            push_str(&mut s, t.as_str());
            push_char(&mut s, ']');
            s
        },
        Expr::If(i) => {
            let mut s = string_of("if ");
            let c = pretty(&i.condition);
            push_str(&mut s, c.as_str());
            push_str(&mut s, " { ");
            let t = pretty(&i.then_expr);
            push_str(&mut s, t.as_str());
            push_str(&mut s, " } else { ");
            let f = pretty(&i.else_expr);
            push_str(&mut s, f.as_str());
            push_str(&mut s, " }");
            s
        },
        Expr::Match(m) => {
            let mut s = string_of("match ");
            let c = pretty(&m.scrutinee);
            push_str(&mut s, c.as_str());
            push_str(&mut s, " { ");
            let a = pretty_arms(&m.arms);
            push_str(&mut s, a.as_str());
            push_str(&mut s, " }");
            s
        },
        Expr::Try(inner) => {
            let mut s = pretty(inner);
            push_char(&mut s, '?');
            s
        },
        Expr::Forall(f) => {
            let mut s = string_of("forall ");
            push_str(&mut s, f.var.as_str());
            push_str(&mut s, ": ");
            push_str(&mut s, f.var_ty.name());
            push_str(&mut s, " { ");
            let t = pretty(&f.body);
            push_str(&mut s, t.as_str());
            push_str(&mut s, " }");
            s
        },
        Expr::Aggregate(a) => {
            let mut s = string_of(a.op.op_name());
            push_char(&mut s, '(');
            let t = pretty_list(&a.args);
            push_str(&mut s, t.as_str());
            push_char(&mut s, ')');
            s
        },
        Expr::Range { lo, hi } => {
            let mut s = pretty(lo);
            push_str(&mut s, "..");
            let t = pretty(hi);
            push_str(&mut s, t.as_str());
            s
        },
    }
}

/// The arms of a `match` expression, rendered as `... => expr` and separated
/// by `, `.
fn pretty_arms(arms: &Vec<ExprMatchArm>) -> (r: String)
    ensures
        r@ == pretty_arms_spec(arms@, arms@.len()),
    decreases arms, 1nat,
{
    let mut s = String::new();
    let mut i: usize = 0;
    while i < arms.len()
        invariant
            i <= arms@.len(),
            s@ == pretty_arms_spec(arms@, i as nat),
        decreases arms@.len() - i,
    {
        if i > 0 {
            push_str(&mut s, ", ");
        }
        proof {
            assert(decreases_to!(arms => arms@[i as int]));
            assert(decreases_to!(arms@[i as int] => arms@[i as int].expr));
        }
        push_str(&mut s, "... => ");
        let t = pretty(&arms[i].expr);
        push_str(&mut s, t.as_str());
        i = i + 1;
    }
    s
}

/// The renderings of `args`, separated by `, `.
pub fn pretty_list(args: &Vec<Expr>) -> (r: String)
    ensures
        r@ == pretty_list_spec(args@, args@.len()),
    decreases args, 1nat,
{
    let mut s = String::new();
    let mut i: usize = 0;
    while i < args.len()
        invariant
            i <= args@.len(),
            s@ == pretty_list_spec(args@, i as nat),
        decreases args@.len() - i,
    {
        if i > 0 {
            push_str(&mut s, ", ");
        }
        proof {
            assert(decreases_to!(args => args@[i as int]));
        }
        let t = pretty(&args[i]);
        push_str(&mut s, t.as_str());
        i = i + 1;
    }
    s
}

/// The rendering of a type.
pub open spec fn type_text(t: Type) -> Seq<char>
    decreases t, 0nat, 0nat,
{
    match t {
        Type::Named(s) => s@,
        Type::Generic(name, args) => name@ + seq!['<'] + types_text(args@, args@.len()) + seq!['>'],
        Type::Tuple(elems) => seq!['('] + types_text(elems@, elems@.len()) + seq![')'],
        Type::Array(x, n) => seq!['['] + type_text(*x) + "; "@ + nat_digits(n as nat) + seq![']'],
        Type::Slice(x) => seq!['['] + type_text(*x) + seq![']'],
    }
}

/// The first `n` types, separated by `, `.
pub open spec fn types_text(ts: Seq<Type>, n: nat) -> Seq<char>
    decreases ts, 1nat, n,
{
    if n == 0 || n > ts.len() {
        Seq::empty()
    } else if n == 1 {
        type_text(ts[0])
    } else {
        types_text(ts, (n - 1) as nat) + ", "@ + type_text(ts[n - 1])
    }
}

/// The rendering of a pattern.
pub open spec fn pattern_text(p: Pattern) -> Seq<char>
    decreases p, 0nat, 0nat,
{
    match p {
        Pattern::Literal(n) => int_text(n as int),
        Pattern::Var(v) => v@,
        Pattern::Constructor(name, fields) => if fields@.len() == 0 {
            name@
        } else {
            name@ + seq!['('] + patterns_text(fields@, fields@.len()) + seq![')']
        },
        Pattern::Wildcard => "_"@,
    }
}

/// The first `n` patterns, separated by `, `.
pub open spec fn patterns_text(ps: Seq<Pattern>, n: nat) -> Seq<char>
    decreases ps, 1nat, n,
{
    if n == 0 || n > ps.len() {
        Seq::empty()
    } else if n == 1 {
        pattern_text(ps[0])
    } else {
        patterns_text(ps, (n - 1) as nat) + ", "@ + pattern_text(ps[n - 1])
    }
}

pub fn render_type(t: &Type) -> (r: String)
    ensures
        r@ == type_text(*t),
    decreases t, 0nat,
{
    match t {
        Type::Named(s) => copy_string(s),
        Type::Generic(name, args) => {
            let mut s = copy_string(name);
            push_char(&mut s, '<');
            let a = render_types(args);
            push_str(&mut s, a.as_str());
            push_char(&mut s, '>');
            s
        },
        Type::Tuple(elems) => {
            let mut s = String::new();
            push_char(&mut s, '(');
            let a = render_types(elems);
            push_str(&mut s, a.as_str());
            push_char(&mut s, ')');
            s
        },
        Type::Array(x, n) => {
            let mut s = String::new();
            push_char(&mut s, '[');
            let a = render_type(x);
            push_str(&mut s, a.as_str());
            push_str(&mut s, "; ");
            let d = usize_text(*n);
            push_str(&mut s, d.as_str());
            push_char(&mut s, ']');
            s
        },
        Type::Slice(x) => {
            let mut s = String::new();
            push_char(&mut s, '[');
            let a = render_type(x);
            push_str(&mut s, a.as_str());
            push_char(&mut s, ']');
            s
        },
    }
}

pub fn render_types(ts: &Vec<Type>) -> (r: String)
    ensures
        r@ == types_text(ts@, ts@.len()),
    decreases ts, 1nat,
{
    let mut s = String::new();
    let mut i: usize = 0;
    while i < ts.len()
        invariant
            i <= ts@.len(),
            s@ == types_text(ts@, i as nat),
        decreases ts@.len() - i,
    {
        if i > 0 {
            push_str(&mut s, ", ");
        }
        proof {
            assert(decreases_to!(ts => ts@[i as int]));
        }
        let t = render_type(&ts[i]);
        push_str(&mut s, t.as_str());
        i = i + 1;
    }
    s
}

pub fn render_pattern(p: &Pattern) -> (r: String)
    ensures
        r@ == pattern_text(*p),
    decreases p, 0nat,
{
    match p {
        Pattern::Literal(n) => i64_text(*n),
        Pattern::Var(v) => copy_string(v),
        Pattern::Constructor(name, fields) => {
            if fields.len() == 0 {
                copy_string(name)
            } else {
                let mut s = copy_string(name);
                push_char(&mut s, '(');
                let a = render_patterns(fields);
                push_str(&mut s, a.as_str());
                push_char(&mut s, ')');
                s
            }
        },
        Pattern::Wildcard => string_of("_"),
    }
}

pub fn render_patterns(ps: &Vec<Pattern>) -> (r: String)
    ensures
        r@ == patterns_text(ps@, ps@.len()),
    decreases ps, 1nat,
{
    let mut s = String::new();
    let mut i: usize = 0;
    while i < ps.len()
        invariant
            i <= ps@.len(),
            s@ == patterns_text(ps@, i as nat),
        decreases ps@.len() - i,
    {
        if i > 0 {
            push_str(&mut s, ", ");
        }
        proof {
            assert(decreases_to!(ps => ps@[i as int]));
        }
        let t = render_pattern(&ps[i]);
        push_str(&mut s, t.as_str());
        i = i + 1;
    }
    s
}

} // verus!
