//! The compact outline of parsed modules that the command line prints for
//! `parse`: one line per struct, enum and invariant, functions with their
//! clauses and bodies, and a machine-readable summary of the same.

use vstd::prelude::*;
use crate::ast::{Module, Item, Func, Type, FieldDef, VariantDef, Invariant, Stmt, IfStmt, MatchArm};
use crate::render::{pretty, pretty_spec, pattern_text, render_pattern};
use crate::agent::{indent_spec, indent, assign_text, render_assign};
use crate::format::{join, lemma_join_step, attr_texts, attr_text, push_sep, render_attr};
use crate::text::{string_of, push_str, push_char, copy_string, str_eq, usize_text, nat_digits};

verus! {

/// The name the outline gives a type: the numeric source types by their
/// machine names.
pub open spec fn outline_type(t: Type) -> Seq<char>
    decreases t, 0nat, 0nat,
{
    match t {
        Type::Named(s) => if s@ == "Float32"@ {
            "f32"@
        } else if s@ == "Float64"@ {
            "f64"@
        } else if s@ == "Int"@ || s@ == "PositiveInt"@ {
            "i64"@
        } else {
            s@
        },
        Type::Generic(name, args) => name@ + seq!['<'] + outline_types(args@, args@.len()) + seq!['>'],
        Type::Tuple(elems) => seq!['('] + outline_types(elems@, elems@.len()) + seq![')'],
        Type::Array(x, n) => seq!['['] + outline_type(*x) + "; "@ + nat_digits(n as nat) + seq![']'],
        Type::Slice(x) => seq!['['] + outline_type(*x) + seq![']'],
    }
}

/// The first `n` types, separated by `, `.
pub open spec fn outline_types(ts: Seq<Type>, n: nat) -> Seq<char>
    decreases ts, 1nat, n,
{
    if n == 0 || n > ts.len() {
        Seq::empty()
    } else if n == 1 {
        outline_type(ts[0])
    } else {
        outline_types(ts, (n - 1) as nat) + ", "@ + outline_type(ts[n - 1])
    }
}

/// An `if` statement in the outline has its then body in the block right
/// after the condition and its else body, when there is one, in the block
/// after `else`.
pub proof fn lemma_ostmt_if_branches(is: IfStmt)
    ensures
        ({
            let s = ostmt(Stmt::If(is));
            let head = "if "@ + pretty_spec(is.condition) + " {\n"@ + indent_spec(ostmts(is.then_body@, is.then_body@.len())) + "\n}"@;
            &&& s.len() >= head.len()
            &&& s.subrange(0, head.len() as int) == head
            &&& match is.else_body {
                Some(b) => s.subrange(head.len() as int, s.len() as int)
                    == " else {\n"@ + indent_spec(ostmts(b@, b@.len())) + "\n}"@,
                None => s.len() == head.len(),
            }
        }),
{
    let head = "if "@ + pretty_spec(is.condition) + " {\n"@ + indent_spec(ostmts(is.then_body@, is.then_body@.len())) + "\n}"@;
    let s = ostmt(Stmt::If(is));
    match is.else_body {
        Some(b) => {
            let tail = " else {\n"@ + indent_spec(ostmts(b@, b@.len())) + "\n}"@;
            assert(s =~= head + tail);
            assert(s.subrange(0, head.len() as int) =~= head);
            assert(s.subrange(head.len() as int, s.len() as int) =~= tail);
        },
        None => {
            assert(s =~= head);
            assert(s.subrange(0, head.len() as int) =~= head);
        },
    }
}

/// A statement in the outline.
pub open spec fn ostmt(s: Stmt) -> Seq<char>
    decreases s, 0nat, 0nat,
{
    match s {
        Stmt::MutateState(asg) => "mutate state {\n"@
            + indent_spec(join(Seq::new(asg@.len(), |i: int| assign_text(asg@[i])), "\n"@)) + "\n}"@,
        Stmt::Assign(a) => assign_text(a),
        Stmt::Let(lb) => "let "@ + lb.name@ + match lb.ty {
            Some(t) => ": "@ + outline_type(t),
            None => Seq::empty(),
        } + " = "@ + pretty_spec(lb.value) + seq![';'],
        Stmt::If(is) => "if "@ + pretty_spec(is.condition) + " {\n"@ + indent_spec(ostmts(is.then_body@, is.then_body@.len())) + "\n}"@
            + match is.else_body {
                Some(b) => " else {\n"@ + indent_spec(ostmts(b@, b@.len())) + "\n}"@,
                None => Seq::empty(),
            },
        Stmt::Match(ms) => "match "@ + pretty_spec(ms.scrutinee) + " {\n"@ + indent_spec(oarms(ms.arms@, ms.arms@.len())) + "\n}"@,
        Stmt::Return(e) => match e {
            Some(x) => "return "@ + pretty_spec(x) + seq![';'],
            None => "return;"@,
        },
    }
}

/// The first `n` statements, one per line.
pub open spec fn ostmts(ss: Seq<Stmt>, n: nat) -> Seq<char>
    decreases ss, 1nat, n,
{
    if n == 0 || n > ss.len() {
        Seq::empty()
    } else if n == 1 {
        ostmt(ss[0])
    } else {
        ostmts(ss, (n - 1) as nat) + "\n"@ + ostmt(ss[n - 1])
    }
}

/// The first `n` arms of a `match` statement.
pub open spec fn oarms(arms: Seq<MatchArm>, n: nat) -> Seq<char>
    decreases arms, 1nat, n,
{
    if n == 0 || n > arms.len() {
        Seq::empty()
    } else {
        let a = arms[n - 1];
        let t = pattern_text(a.pattern) + " => {\n"@ + indent_spec(ostmts(a.body@, a.body@.len())) + "\n}"@;
        if n == 1 { t } else { oarms(arms, (n - 1) as nat) + "\n"@ + t }
    }
}

pub open spec fn ofield(f: FieldDef) -> Seq<char> {
    f.name@ + ": "@ + outline_type(f.ty)
}

pub open spec fn ofields(fs: Seq<FieldDef>) -> Seq<char> {
    join(Seq::new(fs.len(), |i: int| ofield(fs[i])), ", "@)
}

pub open spec fn ovariant(v: VariantDef) -> Seq<char> {
    if v.fields@.len() == 0 { v.name@ } else { v.name@ + " { "@ + ofields(v.fields@) + " }"@ }
}

pub open spec fn oinvariant(i: Invariant) -> Seq<char> {
    "invariant "@ + i.name@ + " { "@ + join(Seq::new(i.constraints@.len(), |k: int| pretty_spec(i.constraints@[k])), "; "@) + " }"@
}

/// The parameters of a function as `name: type`.
pub open spec fn oparams(f: Func) -> Seq<Seq<char>> {
    Seq::new(f.params@.len(), |i: int| f.params@[i].name@ + ": "@ + outline_type(f.params@[i].ty))
}

/// The clauses of a function: its `requires`, then its `ensures`.
pub open spec fn oclauses(f: Func) -> Seq<Seq<char>> {
    Seq::new(f.requires@.len(), |i: int| "requires "@ + pretty_spec(f.requires@[i]))
        + Seq::new(f.ensures@.len(), |i: int| "ensures "@ + pretty_spec(f.ensures@[i]))
}

pub open spec fn ofunc(f: Func) -> Seq<char> {
    let cl = oclauses(f);
    "func "@ + f.name@ + "("@ + join(oparams(f), ", "@) + ")"@
        + (if cl.len() > 0 { "\n"@ + indent_spec(join(cl, "\n"@)) } else { Seq::empty() })
        + if f.elided { ";"@ } else { "\n{\n"@ + indent_spec(ostmts(f.body@, f.body@.len())) + "\n}"@ }
}

pub open spec fn oitem(it: Item) -> Seq<char> {
    match it {
        Item::Invariant(i) => oinvariant(i),
        Item::Func(f) => ofunc(f),
        Item::Struct(s) => "struct "@ + s.name@ + " { "@ + ofields(s.fields@) + " }"@,
        Item::Enum(e) => "enum "@ + e.name@ + " { "@ + join(Seq::new(e.variants@.len(), |i: int| ovariant(e.variants@[i])), ", "@) + " }"@,
    }
}

/// The outline of a module: its attributes and name on the first line,
/// then its items, one after another, indented.
pub open spec fn outline_spec(m: Module) -> Seq<char> {
    let header = if m.attributes@.len() == 0 {
        "module "@ + m.name@
    } else {
        join(attr_texts(m.attributes@), " "@) + " module "@ + m.name@
    };
    header + "{\n"@ + indent_spec(join(Seq::new(m.items@.len(), |i: int| oitem(m.items@[i])), "\n"@)) + "\n}"@
}

fn outline_type_text(t: &Type) -> (r: String)
    ensures
        r@ == outline_type(*t),
    decreases t, 0nat,
{
    match t {
        Type::Named(s) => {
            if str_eq(s.as_str(), "Float32") {
                string_of("f32")
            } else if str_eq(s.as_str(), "Float64") {
                string_of("f64")
            } else if str_eq(s.as_str(), "Int") || str_eq(s.as_str(), "PositiveInt") {
                string_of("i64")
            } else {
                copy_string(s)
            }
        },
        Type::Generic(name, args) => {
            let mut s = copy_string(name);
            push_char(&mut s, '<');
            let a = outline_types_text(args);
            push_str(&mut s, a.as_str());
            push_char(&mut s, '>');
            s
        },
        Type::Tuple(elems) => {
            let mut s = String::new();
            push_char(&mut s, '(');
            let a = outline_types_text(elems);
            push_str(&mut s, a.as_str());
            push_char(&mut s, ')');
            s
        },
        Type::Array(x, n) => {
            let mut s = String::new();
            push_char(&mut s, '[');
            let a = outline_type_text(x);
            push_str(&mut s, a.as_str());
            push_str(&mut s, "; ");
            let d = usize_text(*n);
            push_str(&mut s, d.as_str());
            push_char(&mut s, ']');
            s
        },
        Type::Slice(x) => {
            let mut s = String::new();
            push_char(&mut s, '[');
            let a = outline_type_text(x);
            push_str(&mut s, a.as_str());
            push_char(&mut s, ']');
            s
        },
    }
}

fn outline_types_text(ts: &Vec<Type>) -> (r: String)
    ensures
        r@ == outline_types(ts@, ts@.len()),
    decreases ts, 1nat,
{
    let mut s = String::new();
    let mut i: usize = 0;
    while i < ts.len()
        invariant
            i <= ts@.len(),
            s@ == outline_types(ts@, i as nat),
        decreases ts@.len() - i,
    {
        if i > 0 {
            push_str(&mut s, ", ");
        }
        proof {
            assert(decreases_to!(ts => ts@[i as int]));
        }
        let t = outline_type_text(&ts[i]);
        push_str(&mut s, t.as_str());
        i = i + 1;
    }
    s
}

fn outline_stmts(ss: &Vec<Stmt>) -> (r: String)
    ensures
        r@ == ostmts(ss@, ss@.len()),
    decreases ss, 1nat,
{
    let mut s = String::new();
    let mut i: usize = 0;
    while i < ss.len()
        invariant
            i <= ss@.len(),
            s@ == ostmts(ss@, i as nat),
        decreases ss@.len() - i,
    {
        proof {
            assert(decreases_to!(ss => ss@[i as int]));
        }
        push_sep(&mut s, i, "\n");
        let t = outline_stmt(&ss[i]);
        push_str(&mut s, t.as_str());
        i = i + 1;
    }
    s
}

fn outline_arms(arms: &Vec<MatchArm>) -> (r: String)
    ensures
        r@ == oarms(arms@, arms@.len()),
    decreases arms, 1nat,
{
    let mut s = String::new();
    let mut i: usize = 0;
    while i < arms.len()
        invariant
            i <= arms@.len(),
            s@ == oarms(arms@, i as nat),
        decreases arms@.len() - i,
    {
        proof {
            assert(decreases_to!(arms => arms@[i as int]));
            assert(decreases_to!(arms@[i as int] => arms@[i as int].body));
        }
        push_sep(&mut s, i, "\n");
        let p = render_pattern(&arms[i].pattern);
        push_str(&mut s, p.as_str());
        push_str(&mut s, " => {\n");
        let b = outline_stmts(&arms[i].body);
        let bi = indent(b.as_str());
        push_str(&mut s, bi.as_str());
        push_str(&mut s, "\n}");
        i = i + 1;
    }
    s
}

fn outline_stmt(st: &Stmt) -> (r: String)
    ensures
        r@ == ostmt(*st),
    decreases st, 0nat,
{
    match st {
        Stmt::MutateState(asg) => {
            let ghost xs = Seq::new(asg@.len(), |i: int| assign_text(asg@[i]));
            let mut inner = String::new();
            let mut i: usize = 0;
            while i < asg.len()
                invariant
                    i <= asg@.len(),
                    xs == Seq::new(asg@.len(), |i: int| assign_text(asg@[i])),
                    inner@ == join(xs.take(i as int), "\n"@),
                decreases asg@.len() - i,
            {
                proof { lemma_join_step(xs, "\n"@, i as int); }
                push_sep(&mut inner, i, "\n");
                let t = render_assign(&asg[i]);
                push_str(&mut inner, t.as_str());
                i = i + 1;
            }
            assert(xs.take(xs.len() as int) =~= xs);
            let mut s = string_of("mutate state {\n");
            let t = indent(inner.as_str());
            push_str(&mut s, t.as_str());
            push_str(&mut s, "\n}");
            s
        },
        Stmt::Assign(a) => render_assign(a),
        Stmt::Let(lb) => {
            let mut s = string_of("let ");
            push_str(&mut s, lb.name.as_str());
            match &lb.ty {
                Some(t) => {
                    push_str(&mut s, ": ");
                    let u = outline_type_text(t);
                    push_str(&mut s, u.as_str());
                },
                None => {},
            }
            push_str(&mut s, " = ");
            let v = pretty(&lb.value);
            push_str(&mut s, v.as_str());
            push_char(&mut s, ';');
            s
        },
        Stmt::If(is) => {
            let mut s = string_of("if ");
            let c = pretty(&is.condition);
            push_str(&mut s, c.as_str());
            push_str(&mut s, " {\n");
            let b = outline_stmts(&is.then_body);
            let bi = indent(b.as_str());
            push_str(&mut s, bi.as_str());
            push_str(&mut s, "\n}");
            match &is.else_body {
                Some(eb) => {
                    push_str(&mut s, " else {\n");
                    let e = outline_stmts(eb);
                    let ei = indent(e.as_str());
                    push_str(&mut s, ei.as_str());
                    push_str(&mut s, "\n}");
                },
                None => {},
            }
            s
        },
        Stmt::Match(ms) => {
            let mut s = string_of("match ");
            let c = pretty(&ms.scrutinee);
            push_str(&mut s, c.as_str());
            push_str(&mut s, " {\n");
            let a = outline_arms(&ms.arms);
            let ai = indent(a.as_str());
            push_str(&mut s, ai.as_str());
            push_str(&mut s, "\n}");
            s
        },
        Stmt::Return(e) => match e {
            Some(x) => {
                let mut s = string_of("return ");
                let v = pretty(x);
                push_str(&mut s, v.as_str());
                push_char(&mut s, ';');
                s
            },
            None => string_of("return;"),
        },
    }
}

fn outline_fields(fs: &Vec<FieldDef>) -> (r: String)
    ensures
        r@ == ofields(fs@),
{
    let ghost xs = Seq::new(fs@.len(), |i: int| ofield(fs@[i]));
    let mut s = String::new();
    let mut i: usize = 0;
    while i < fs.len()
        invariant
            i <= fs@.len(),
            xs == Seq::new(fs@.len(), |i: int| ofield(fs@[i])),
            s@ == join(xs.take(i as int), ", "@),
        decreases fs@.len() - i,
    {
        proof { lemma_join_step(xs, ", "@, i as int); }
        push_sep(&mut s, i, ", ");
        push_str(&mut s, fs[i].name.as_str());
        push_str(&mut s, ": ");
        let t = outline_type_text(&fs[i].ty);
        push_str(&mut s, t.as_str());
        i = i + 1;
    }
    assert(xs.take(xs.len() as int) =~= xs);
    s
}

fn outline_invariant(inv: &Invariant) -> (r: String)
    ensures
        r@ == oinvariant(*inv),
{
    let cs = &inv.constraints;
    let ghost xs = Seq::new(cs@.len(), |k: int| pretty_spec(cs@[k]));
    let mut body = String::new();
    let mut i: usize = 0;
    while i < cs.len()
        invariant
            i <= cs@.len(),
            xs == Seq::new(cs@.len(), |k: int| pretty_spec(cs@[k])),
            body@ == join(xs.take(i as int), "; "@),
        decreases cs@.len() - i,
    {
        proof { lemma_join_step(xs, "; "@, i as int); }
        push_sep(&mut body, i, "; ");
        let t = pretty(&cs[i]);
        push_str(&mut body, t.as_str());
        i = i + 1;
    }
    assert(xs.take(xs.len() as int) =~= xs);
    let mut s = string_of("invariant ");
    push_str(&mut s, inv.name.as_str());
    push_str(&mut s, " { ");
    push_str(&mut s, body.as_str());
    push_str(&mut s, " }");
    s
}

fn outline_params(f: &Func) -> (r: String)
    ensures
        r@ == join(oparams(*f), ", "@),
{
    let ghost ps = oparams(*f);
    let mut params = String::new();
    let mut i: usize = 0;
    while i < f.params.len()
        invariant
            i <= f.params@.len(),
            ps == oparams(*f),
            params@ == join(ps.take(i as int), ", "@),
        decreases f.params@.len() - i,
    {
        proof { lemma_join_step(ps, ", "@, i as int); }
        push_sep(&mut params, i, ", ");
        push_str(&mut params, f.params[i].name.as_str());
        push_str(&mut params, ": ");
        let t = outline_type_text(&f.params[i].ty);
        push_str(&mut params, t.as_str());
        i = i + 1;
    }
    assert(ps.take(ps.len() as int) =~= ps);
    params
}

fn outline_clauses(f: &Func) -> (r: String)
    ensures
        r@ == join(oclauses(*f), "\n"@),
{
    let ghost cl = oclauses(*f);
    let nr = f.requires.len();
    let ne = f.ensures.len();
    let mut clauses = String::new();
    let mut k: usize = 0;
    while k < nr
        invariant
            nr == f.requires@.len(),
            k <= nr,
            cl == oclauses(*f),
            cl.len() == f.requires@.len() + f.ensures@.len(),
            clauses@ == join(cl.take(k as int), "\n"@),
        decreases nr - k,
    {
        proof { lemma_join_step(cl, "\n"@, k as int); }
        push_sep(&mut clauses, k, "\n");
        push_str(&mut clauses, "requires ");
        let t = pretty(&f.requires[k]);
        push_str(&mut clauses, t.as_str());
        k = k + 1;
    }
    let mut j: usize = 0;
    while j < ne
        invariant
            nr == f.requires@.len(),
            ne == f.ensures@.len(),
            j <= ne,
            cl == oclauses(*f),
            cl.len() == nr + ne,
            clauses@ == join(cl.take(nr + j), "\n"@),
        decreases ne - j,
    {
        proof { lemma_join_step(cl, "\n"@, nr + j); }
        if nr > 0 || j > 0 {
            push_str(&mut clauses, "\n");
        }
        push_str(&mut clauses, "ensures ");
        let t = pretty(&f.ensures[j]);
        push_str(&mut clauses, t.as_str());
        j = j + 1;
    }
    assert(cl.take(cl.len() as int) =~= cl);
    clauses
}

fn outline_func(f: &Func) -> (r: String)
    ensures
        r@ == ofunc(*f),
{
    let mut out = string_of("func ");
    push_str(&mut out, f.name.as_str());
    push_str(&mut out, "(");
    let params = outline_params(f);
    push_str(&mut out, params.as_str());
    push_str(&mut out, ")");
    if f.requires.len() > 0 || f.ensures.len() > 0 {
        push_str(&mut out, "\n");
        let clauses = outline_clauses(f);
        let c = indent(clauses.as_str());
        push_str(&mut out, c.as_str());
    }
    if f.elided {
        push_str(&mut out, ";");
    } else {
        push_str(&mut out, "\n{\n");
        let b = outline_stmts(&f.body);
        let bi = indent(b.as_str());
        push_str(&mut out, bi.as_str());
        push_str(&mut out, "\n}");
    }
    assert(out@ =~= ofunc(*f));
    out
}

fn outline_item(it: &Item) -> (r: String)
    ensures
        r@ == oitem(*it),
{
    match it {
        Item::Invariant(i) => outline_invariant(i),
        Item::Func(f) => outline_func(f),
        Item::Struct(sd) => {
            let mut s = string_of("struct ");
            push_str(&mut s, sd.name.as_str());
            push_str(&mut s, " { ");
            let b = outline_fields(&sd.fields);
            push_str(&mut s, b.as_str());
            push_str(&mut s, " }");
            s
        },
        Item::Enum(e) => {
            let ghost xs = Seq::new(e.variants@.len(), |i: int| ovariant(e.variants@[i]));
            let mut inner = String::new();
            let mut i: usize = 0;
            while i < e.variants.len()
                invariant
                    i <= e.variants@.len(),
                    xs == Seq::new(e.variants@.len(), |i: int| ovariant(e.variants@[i])),
                    inner@ == join(xs.take(i as int), ", "@),
                decreases e.variants@.len() - i,
            {
                proof { lemma_join_step(xs, ", "@, i as int); }
                push_sep(&mut inner, i, ", ");
                let v = &e.variants[i];
                push_str(&mut inner, v.name.as_str());
                if v.fields.len() > 0 {
                    push_str(&mut inner, " { ");
                    let b = outline_fields(&v.fields);
                    push_str(&mut inner, b.as_str());
                    push_str(&mut inner, " }");
                }
                i = i + 1;
            }
            assert(xs.take(xs.len() as int) =~= xs);
            let mut s = string_of("enum ");
            push_str(&mut s, e.name.as_str());
            push_str(&mut s, " { ");
            push_str(&mut s, inner.as_str());
            push_str(&mut s, " }");
            s
        },
    }
}

/// The outline of one module.
pub fn outline_module(m: &Module) -> (r: String)
    ensures
        r@ == outline_spec(*m),
{
    let mut s = String::new();
    if m.attributes.len() > 0 {
        let ghost xs = attr_texts(m.attributes@);
        let mut i: usize = 0;
        while i < m.attributes.len()
            invariant
                i <= m.attributes@.len(),
                xs == attr_texts(m.attributes@),
                s@ == join(xs.take(i as int), " "@),
            decreases m.attributes@.len() - i,
        {
            proof { lemma_join_step(xs, " "@, i as int); }
            push_sep(&mut s, i, " ");
            let t = render_attr(&m.attributes[i]);
            push_str(&mut s, t.as_str());
            i = i + 1;
        }
        assert(xs.take(xs.len() as int) =~= xs);
        push_str(&mut s, " module ");
    } else {
        push_str(&mut s, "module ");
    }
    push_str(&mut s, m.name.as_str());
    let ghost xs = Seq::new(m.items@.len(), |i: int| oitem(m.items@[i]));
    let mut items = String::new();
    let mut i: usize = 0;
    while i < m.items.len()
        invariant
            i <= m.items@.len(),
            xs == Seq::new(m.items@.len(), |i: int| oitem(m.items@[i])),
            items@ == join(xs.take(i as int), "\n"@),
        decreases m.items@.len() - i,
    {
        proof { lemma_join_step(xs, "\n"@, i as int); }
        push_sep(&mut items, i, "\n");
        let t = outline_item(&m.items[i]);
        push_str(&mut items, t.as_str());
        i = i + 1;
    }
    assert(xs.take(xs.len() as int) =~= xs);
    push_str(&mut s, "{\n");
    let b = indent(items.as_str());
    push_str(&mut s, b.as_str());
    push_str(&mut s, "\n}");
    assert(s@ =~= outline_spec(*m));
    s
}

/// A function as the machine-readable outline lists it.
#[derive(Debug, Clone)]
pub struct FuncSummary {
    pub name: String,
    /// Each parameter as `name: type`.
    pub params: Vec<String>,
    pub requires: Vec<String>,
    pub ensures: Vec<String>,
}

/// A module as the machine-readable outline lists it.
#[derive(Debug, Clone)]
pub struct ModuleSummary {
    pub name: String,
    pub functions: Vec<FuncSummary>,
    /// The names of the module's invariants.
    pub invariants: Vec<String>,
}

pub open spec fn texts(v: Seq<String>) -> Seq<Seq<char>> {
    v.map_values(|s: String| s@)
}

/// The functions among the items, in order.
pub open spec fn funcs_in(items: Seq<Item>) -> Seq<Func>
    decreases items.len(),
{
    if items.len() == 0 {
        Seq::empty()
    } else {
        funcs_in(items.drop_last()) + match items.last() {
            Item::Func(f) => seq![f],
            _ => Seq::empty(),
        }
    }
}

/// The names of the invariants among the items, in order.
pub open spec fn invariants_in(items: Seq<Item>) -> Seq<Seq<char>>
    decreases items.len(),
{
    if items.len() == 0 {
        Seq::empty()
    } else {
        invariants_in(items.drop_last()) + match items.last() {
            Item::Invariant(i) => seq![i.name@],
            _ => Seq::empty(),
        }
    }
}

pub open spec fn func_summary_of(s: FuncSummary, f: Func) -> bool {
    &&& s.name@ == f.name@
    &&& texts(s.params@) == oparams(f)
    &&& texts(s.requires@) == Seq::new(f.requires@.len(), |i: int| pretty_spec(f.requires@[i]))
    &&& texts(s.ensures@) == Seq::new(f.ensures@.len(), |i: int| pretty_spec(f.ensures@[i]))
}

pub open spec fn module_summary_of(s: ModuleSummary, m: Module) -> bool {
    &&& s.name@ == m.name@
    &&& s.functions@.len() == funcs_in(m.items@).len()
    &&& forall|k: int| 0 <= k < s.functions@.len() ==> func_summary_of(#[trigger] s.functions@[k], funcs_in(m.items@)[k])
    &&& texts(s.invariants@) == invariants_in(m.items@)
}

fn exprs_text(es: &Vec<crate::ast::Expr>) -> (r: Vec<String>)
    ensures
        texts(r@) == Seq::new(es@.len(), |i: int| pretty_spec(es@[i])),
{
    let mut out: Vec<String> = Vec::new();
    let mut i: usize = 0;
    while i < es.len()
        invariant
            i <= es@.len(),
            out@.len() == i,
            texts(out@) == Seq::new(i as nat, |k: int| pretty_spec(es@[k])),
        decreases es@.len() - i,
    {
        let t = pretty(&es[i]);
        let ghost prev = out@;
        out.push(t);
        assert forall|k: int| 0 <= k < i + 1 implies #[trigger] texts(out@)[k] == pretty_spec(es@[k]) by {
            if k < i {
                assert(out@[k] == prev[k]);
                assert(texts(prev)[k] == pretty_spec(es@[k]));
            }
        }
        assert(texts(out@) =~= Seq::new((i + 1) as nat, |k: int| pretty_spec(es@[k])));
        i = i + 1;
    }
    out
}

fn summarize_func(f: &Func) -> (r: FuncSummary)
    ensures
        func_summary_of(r, *f),
{
    let mut params: Vec<String> = Vec::new();
    let mut i: usize = 0;
    while i < f.params.len()
        invariant
            i <= f.params@.len(),
            params@.len() == i,
            texts(params@) == oparams(*f).take(i as int),
        decreases f.params@.len() - i,
    {
        let mut t = copy_string(&f.params[i].name);
        push_str(&mut t, ": ");
        let ty = outline_type_text(&f.params[i].ty);
        push_str(&mut t, ty.as_str());
        let ghost prev = params@;
        params.push(t);
        assert forall|k: int| 0 <= k < i + 1 implies #[trigger] texts(params@)[k] == oparams(*f).take(i + 1)[k] by {
            if k < i {
                assert(params@[k] == prev[k]);
                assert(texts(prev)[k] == oparams(*f).take(i as int)[k]);
            }
        }
        assert(texts(params@) =~= oparams(*f).take(i + 1));
        i = i + 1;
    }
    assert(oparams(*f).take(f.params@.len() as int) =~= oparams(*f));
    FuncSummary {
        name: copy_string(&f.name),
        params,
        requires: exprs_text(&f.requires),
        ensures: exprs_text(&f.ensures),
    }
}

/// The machine-readable outline of one module: its functions with their
/// parameters and clauses, and the names of its invariants.
pub fn summarize_module(m: &Module) -> (r: ModuleSummary)
    ensures
        module_summary_of(r, *m),
{
    let mut functions: Vec<FuncSummary> = Vec::new();
    let mut invariants: Vec<String> = Vec::new();
    let mut i: usize = 0;
    while i < m.items.len()
        invariant
            i <= m.items@.len(),
            functions@.len() == funcs_in(m.items@.take(i as int)).len(),
            forall|k: int| 0 <= k < functions@.len() ==> func_summary_of(#[trigger] functions@[k], funcs_in(m.items@.take(i as int))[k]),
            texts(invariants@) == invariants_in(m.items@.take(i as int)),
        decreases m.items@.len() - i,
    {
        assert(m.items@.take(i + 1).drop_last() =~= m.items@.take(i as int));
        match &m.items[i] {
            Item::Func(f) => {
                let fs = summarize_func(f);
                functions.push(fs);
            },
            Item::Invariant(inv) => {
                invariants.push(copy_string(&inv.name));
                assert(texts(invariants@) =~= invariants_in(m.items@.take(i + 1)));
            },
            _ => {},
        }
        assert(texts(invariants@) =~= invariants_in(m.items@.take(i + 1)));
        i = i + 1;
    }
    assert(m.items@.take(m.items@.len() as int) =~= m.items@);
    ModuleSummary { name: copy_string(&m.name), functions, invariants }
}

/// The machine-readable outline of every module, in order.
pub fn summarize(modules: &Vec<Module>) -> (r: Vec<ModuleSummary>)
    ensures
        r@.len() == modules@.len(),
        forall|k: int| 0 <= k < r@.len() ==> module_summary_of(#[trigger] r@[k], modules@[k]),
{
    let mut out: Vec<ModuleSummary> = Vec::new();
    let mut i: usize = 0;
    while i < modules.len()
        invariant
            i <= modules@.len(),
            out@.len() == i,
            forall|k: int| 0 <= k < i ==> module_summary_of(#[trigger] out@[k], modules@[k]),
        decreases modules@.len() - i,
    {
        let s = summarize_module(&modules[i]);
        out.push(s);
        i = i + 1;
    }
    out
}

/// The outline the command line prints: each module's outline on lines of
/// its own.
pub fn outline(modules: &Vec<Module>) -> (r: String)
    ensures
        r@ == crate::prove::concat(Seq::new(modules@.len(), |i: int| outline_spec(modules@[i]) + "\n"@)),
{
    let ghost xs = Seq::new(modules@.len(), |i: int| outline_spec(modules@[i]) + "\n"@);
    let mut out = String::new();
    let mut i: usize = 0;
    assert(xs.take(0) =~= Seq::<Seq<char>>::empty());
    while i < modules.len()
        invariant
            i <= modules@.len(),
            xs == Seq::new(modules@.len(), |i: int| outline_spec(modules@[i]) + "\n"@),
            out@ == crate::prove::concat(xs.take(i as int)),
        decreases modules@.len() - i,
    {
        proof { crate::prove::lemma_concat_step(xs, i as int); }
        let t = outline_module(&modules[i]);
        push_str(&mut out, t.as_str());
        push_str(&mut out, "\n");
        i = i + 1;
    }
    assert(xs.take(xs.len() as int) =~= xs);
    out
}

} // verus!
