//! Canonical source formatting: parsed modules rendered back as source text,
//! four spaces per nesting level.

use vstd::prelude::*;
use crate::ast::{Module, Item, Func, Param, ParamMutability, Attribute, Arg, Literal, FieldDef, VariantDef, Invariant, Stmt, IfStmt, MatchArm};
use crate::parser::{parse, module_wf};
use crate::render::{pretty, pretty_spec, type_text, pattern_text, render_type, render_pattern};
use crate::agent::{indent_spec, indent, assign_text, render_assign};
use crate::text::{string_of, push_str, push_char, i64_text, int_text};

verus! {

/// The texts joined with `sep` between them.
pub open spec fn join(xs: Seq<Seq<char>>, sep: Seq<char>) -> Seq<char>
    decreases xs.len(),
{
    if xs.len() == 0 {
        Seq::empty()
    } else if xs.len() == 1 {
        xs[0]
    } else {
        join(xs.drop_last(), sep) + sep + xs.last()
    }
}

pub proof fn lemma_join_step(xs: Seq<Seq<char>>, sep: Seq<char>, i: int)
    requires
        0 <= i < xs.len(),
    ensures
        join(xs.take(i + 1), sep) == if i == 0 { xs[0] } else { join(xs.take(i), sep) + sep + xs[i] },
{
    assert(xs.take(i + 1).drop_last() =~= xs.take(i));
    assert(xs.take(i + 1).last() == xs[i]);
    if i == 0 {
        assert(xs.take(1)[0] == xs[0]);
    }
}

pub open spec fn literal_text(l: Literal) -> Seq<char> {
    match l {
        Literal::Int(n) => int_text(n as int),
        Literal::Ident(s) => s@,
    }
}

pub open spec fn arg_text(a: Arg) -> Seq<char> {
    match a {
        Arg::Flag(f) => f@,
        Arg::Kv(k, v) => k@ + "="@ + literal_text(v),
    }
}

pub open spec fn attr_text(a: Attribute) -> Seq<char> {
    if a.args@.len() == 0 {
        "@"@ + a.name@
    } else {
        "@"@ + a.name@ + "("@ + join(Seq::new(a.args@.len(), |i: int| arg_text(a.args@[i])), ", "@) + ")"@
    }
}

pub open spec fn attr_texts(attrs: Seq<Attribute>) -> Seq<Seq<char>> {
    Seq::new(attrs.len(), |i: int| attr_text(attrs[i]))
}

pub open spec fn field_text(f: FieldDef) -> Seq<char> {
    f.name@ + ": "@ + type_text(f.ty)
}

pub open spec fn fields_block(fs: Seq<FieldDef>) -> Seq<char> {
    indent_spec(join(Seq::new(fs.len(), |i: int| field_text(fs[i])), ",\n"@))
}

pub open spec fn variant_text(v: VariantDef) -> Seq<char> {
    if v.fields@.len() == 0 {
        v.name@
    } else {
        v.name@ + " {\n"@ + fields_block(v.fields@) + "\n}"@
    }
}

pub open spec fn invariant_text(i: Invariant) -> Seq<char> {
    "invariant "@ + i.name@ + " {\n"@
        + indent_spec(join(Seq::new(i.constraints@.len(), |k: int| pretty_spec(i.constraints@[k])), ";\n"@))
        + "\n}"@
}

pub open spec fn param_text(p: Param) -> Seq<char> {
    (if p.mutability == ParamMutability::Mutable { "mut "@ } else { Seq::empty() }) + p.name@ + ": "@ + type_text(p.ty)
}

pub open spec fn clause_texts(f: Func) -> Seq<Seq<char>> {
    Seq::new(f.requires@.len(), |i: int| "requires "@ + pretty_spec(f.requires@[i]))
        + Seq::new(f.ensures@.len(), |i: int| "ensures "@ + pretty_spec(f.ensures@[i]))
}

/// A statement as the formatter lays it out.
pub open spec fn fstmt(s: Stmt) -> Seq<char>
    decreases s, 0nat, 0nat,
{
    match s {
        Stmt::MutateState(asg) => "mutate state {\n"@
            + indent_spec(join(Seq::new(asg@.len(), |i: int| assign_text(asg@[i])), "\n"@)) + "\n}"@,
        Stmt::Assign(a) => assign_text(a),
        Stmt::Let(lb) => "let "@ + lb.name@ + match lb.ty {
            Some(t) => ": "@ + type_text(t),
            None => Seq::empty(),
        } + " = "@ + pretty_spec(lb.value) + seq![';'],
        Stmt::If(is) => "if "@ + pretty_spec(is.condition) + " {\n"@ + indent_spec(fstmts(is.then_body@, is.then_body@.len())) + "\n}"@
            + match is.else_body {
                Some(b) => " else {\n"@ + indent_spec(fstmts(b@, b@.len())) + "\n}"@,
                None => Seq::empty(),
            },
        Stmt::Match(ms) => "match "@ + pretty_spec(ms.scrutinee) + " {\n"@ + indent_spec(farms(ms.arms@, ms.arms@.len())) + "\n}"@,
        Stmt::Return(e) => match e {
            Some(x) => "return "@ + pretty_spec(x) + seq![';'],
            None => "return;"@,
        },
    }
}

/// An `if` statement is laid out with its then body in the block right after
/// the condition and its else body, when there is one, in the block after
/// `else`.
pub proof fn lemma_fstmt_if_branches(is: IfStmt)
    ensures
        ({
            let s = fstmt(Stmt::If(is));
            let head = "if "@ + pretty_spec(is.condition) + " {\n"@ + indent_spec(fstmts(is.then_body@, is.then_body@.len())) + "\n}"@;
            &&& s.len() >= head.len()
            &&& s.subrange(0, head.len() as int) == head
            &&& match is.else_body {
                Some(b) => s.subrange(head.len() as int, s.len() as int)
                    == " else {\n"@ + indent_spec(fstmts(b@, b@.len())) + "\n}"@,
                None => s.len() == head.len(),
            }
        }),
{
    let head = "if "@ + pretty_spec(is.condition) + " {\n"@ + indent_spec(fstmts(is.then_body@, is.then_body@.len())) + "\n}"@;
    let s = fstmt(Stmt::If(is));
    match is.else_body {
        Some(b) => {
            let tail = " else {\n"@ + indent_spec(fstmts(b@, b@.len())) + "\n}"@;
            assert(s =~= head + tail);
            assert(s.subrange(0, head.len() as int) =~= head);
            assert(s.subrange(head.len() as int, s.len() as int) =~= tail);
        },
        None => {
            assert(s =~= head);
            assert(s.subrange(0, head.len() as int) =~= head);
        },
    }
}

/// The first `n` statements, one per line.
pub open spec fn fstmts(ss: Seq<Stmt>, n: nat) -> Seq<char>
    decreases ss, 1nat, n,
{
    if n == 0 || n > ss.len() {
        Seq::empty()
    } else if n == 1 {
        fstmt(ss[0])
    } else {
        fstmts(ss, (n - 1) as nat) + "\n"@ + fstmt(ss[n - 1])
    }
}

/// The first `n` arms of a `match` statement, one after another.
pub open spec fn farms(arms: Seq<MatchArm>, n: nat) -> Seq<char>
    decreases arms, 1nat, n,
{
    if n == 0 || n > arms.len() {
        Seq::empty()
    } else {
        let a = arms[n - 1];
        let t = pattern_text(a.pattern) + " => {\n"@ + indent_spec(fstmts(a.body@, a.body@.len())) + "\n}"@;
        if n == 1 { t } else { farms(arms, (n - 1) as nat) + "\n"@ + t }
    }
}

pub open spec fn func_text(f: Func) -> Seq<char> {
    let cl = clause_texts(f);
    (if f.attributes@.len() > 0 { join(attr_texts(f.attributes@), "\n"@) + "\n"@ } else { Seq::empty() })
        + "func "@ + f.name@ + "("@ + join(Seq::new(f.params@.len(), |i: int| param_text(f.params@[i])), ", "@) + ")"@
        + match f.return_ty {
            Some(t) => " -> "@ + type_text(t),
            None => Seq::empty(),
        }
        + (if cl.len() > 0 { "\n"@ + indent_spec(join(cl, "\n"@)) } else { Seq::empty() })
        + if f.elided { ";"@ } else { "\n{\n"@ + indent_spec(fstmts(f.body@, f.body@.len())) + "\n}"@ }
}

pub open spec fn item_text(it: Item) -> Seq<char> {
    match it {
        Item::Invariant(i) => invariant_text(i),
        Item::Func(f) => func_text(f),
        Item::Struct(s) => "struct "@ + s.name@ + " {\n"@ + fields_block(s.fields@) + "\n}"@,
        Item::Enum(e) => "enum "@ + e.name@ + " {\n"@
            + indent_spec(join(Seq::new(e.variants@.len(), |i: int| variant_text(e.variants@[i])), ",\n"@)) + "\n}"@,
    }
}

pub open spec fn module_text(m: Module) -> Seq<char> {
    let header = if m.attributes@.len() == 0 {
        "module "@ + m.name@ + " "@
    } else {
        join(attr_texts(m.attributes@), "\n"@) + "\nmodule "@ + m.name@ + " "@
    };
    header + "{\n"@ + indent_spec(join(Seq::new(m.items@.len(), |i: int| item_text(m.items@[i])), "\n\n"@)) + "\n}"@
}

/// The canonical text of a program: its modules separated by blank lines,
/// ending with a line break.
pub open spec fn format_spec(ms: Seq<Module>) -> Seq<char> {
    let out = join(Seq::new(ms.len(), |i: int| module_text(ms[i])), "\n\n"@);
    if out.len() > 0 && out.last() == '\n' { out } else { out + "\n"@ }
}

pub(crate) fn push_sep(s: &mut String, i: usize, sep: &str)
    ensures
        final(s)@ == if i > 0 { old(s)@ + sep@ } else { old(s)@ },
{
    if i > 0 {
        push_str(s, sep);
    }
}

fn render_literal(l: &Literal) -> (r: String)
    ensures
        r@ == literal_text(*l),
{
    match l {
        Literal::Int(n) => i64_text(*n),
        Literal::Ident(s) => string_of(s.as_str()),
    }
}

pub(crate) fn render_attr(a: &Attribute) -> (r: String)
    ensures
        r@ == attr_text(*a),
{
    let mut s = string_of("@");
    push_str(&mut s, a.name.as_str());
    if a.args.len() == 0 {
        return s;
    }
    push_str(&mut s, "(");
    let ghost xs = Seq::new(a.args@.len(), |i: int| arg_text(a.args@[i]));
    let mut inner = String::new();
    let mut i: usize = 0;
    while i < a.args.len()
        invariant
            i <= a.args@.len(),
            xs == Seq::new(a.args@.len(), |i: int| arg_text(a.args@[i])),
            inner@ == join(xs.take(i as int), ", "@),
        decreases a.args@.len() - i,
    {
        proof { lemma_join_step(xs, ", "@, i as int); }
        push_sep(&mut inner, i, ", ");
        match &a.args[i] {
            Arg::Flag(f) => push_str(&mut inner, f.as_str()),
            Arg::Kv(k, v) => {
                push_str(&mut inner, k.as_str());
                push_str(&mut inner, "=");
                let t = render_literal(v);
                push_str(&mut inner, t.as_str());
            },
        }
        i = i + 1;
    }
    assert(xs.take(xs.len() as int) =~= xs);
    push_str(&mut s, inner.as_str());
    push_str(&mut s, ")");
    s
}

fn render_attrs(attrs: &Vec<Attribute>) -> (r: String)
    ensures
        r@ == join(attr_texts(attrs@), "\n"@),
{
    let ghost xs = attr_texts(attrs@);
    let mut s = String::new();
    let mut i: usize = 0;
    while i < attrs.len()
        invariant
            i <= attrs@.len(),
            xs == attr_texts(attrs@),
            s@ == join(xs.take(i as int), "\n"@),
        decreases attrs@.len() - i,
    {
        proof { lemma_join_step(xs, "\n"@, i as int); }
        push_sep(&mut s, i, "\n");
        let t = render_attr(&attrs[i]);
        push_str(&mut s, t.as_str());
        i = i + 1;
    }
    assert(xs.take(xs.len() as int) =~= xs);
    s
}

fn render_fields(fs: &Vec<FieldDef>) -> (r: String)
    ensures
        r@ == fields_block(fs@),
{
    let ghost xs = Seq::new(fs@.len(), |i: int| field_text(fs@[i]));
    let mut s = String::new();
    let mut i: usize = 0;
    while i < fs.len()
        invariant
            i <= fs@.len(),
            xs == Seq::new(fs@.len(), |i: int| field_text(fs@[i])),
            s@ == join(xs.take(i as int), ",\n"@),
        decreases fs@.len() - i,
    {
        proof { lemma_join_step(xs, ",\n"@, i as int); }
        push_sep(&mut s, i, ",\n");
        push_str(&mut s, fs[i].name.as_str());
        push_str(&mut s, ": ");
        let t = render_type(&fs[i].ty);
        push_str(&mut s, t.as_str());
        i = i + 1;
    }
    assert(xs.take(xs.len() as int) =~= xs);
    indent(s.as_str())
}

fn render_invariant(inv: &Invariant) -> (r: String)
    ensures
        r@ == invariant_text(*inv),
{
    let cs = &inv.constraints;
    let ghost xs = Seq::new(cs@.len(), |k: int| pretty_spec(cs@[k]));
    let mut body = String::new();
    let mut i: usize = 0;
    while i < cs.len()
        invariant
            i <= cs@.len(),
            xs == Seq::new(cs@.len(), |k: int| pretty_spec(cs@[k])),
            body@ == join(xs.take(i as int), ";\n"@),
        decreases cs@.len() - i,
    {
        proof { lemma_join_step(xs, ";\n"@, i as int); }
        push_sep(&mut body, i, ";\n");
        let t = pretty(&cs[i]);
        push_str(&mut body, t.as_str());
        i = i + 1;
    }
    assert(xs.take(xs.len() as int) =~= xs);
    let mut s = string_of("invariant ");
    push_str(&mut s, inv.name.as_str());
    push_str(&mut s, " {\n");
    let b = indent(body.as_str());
    push_str(&mut s, b.as_str());
    push_str(&mut s, "\n}");
    s
}

fn render_fstmts(ss: &Vec<Stmt>) -> (r: String)
    ensures
        r@ == fstmts(ss@, ss@.len()),
    decreases ss, 1nat,
{
    let mut s = String::new();
    let mut i: usize = 0;
    while i < ss.len()
        invariant
            i <= ss@.len(),
            s@ == fstmts(ss@, i as nat),
        decreases ss@.len() - i,
    {
        proof {
            assert(decreases_to!(ss => ss@[i as int]));
        }
        push_sep(&mut s, i, "\n");
        let t = render_fstmt(&ss[i]);
        push_str(&mut s, t.as_str());
        i = i + 1;
    }
    s
}

fn render_farms(arms: &Vec<MatchArm>) -> (r: String)
    ensures
        r@ == farms(arms@, arms@.len()),
    decreases arms, 1nat,
{
    let mut s = String::new();
    let mut i: usize = 0;
    while i < arms.len()
        invariant
            i <= arms@.len(),
            s@ == farms(arms@, i as nat),
        decreases arms@.len() - i,
    {
        proof {
            assert(decreases_to!(arms => arms@[i as int]));
            assert(decreases_to!(arms@[i as int] => arms@[i as int].body));
        }
        push_sep(&mut s, i, "\n");
        let p = render_pattern(&arms[i].pattern);
        push_str(&mut s, p.as_str());
        push_str(&mut s, " => {\n");
        let b = render_fstmts(&arms[i].body);
        let bi = indent(b.as_str());
        push_str(&mut s, bi.as_str());
        push_str(&mut s, "\n}");
        i = i + 1;
    }
    s
}

fn render_fstmt(st: &Stmt) -> (r: String)
    ensures
        r@ == fstmt(*st),
    decreases st, 0nat,
{
    match st {
        Stmt::MutateState(asg) => {
            let ghost xs = Seq::new(asg@.len(), |i: int| assign_text(asg@[i]));
            let mut inner = String::new();
            let mut i: usize = 0;
            while i < asg.len()
                invariant
                    i <= asg@.len(),
                    xs == Seq::new(asg@.len(), |i: int| assign_text(asg@[i])),
                    inner@ == join(xs.take(i as int), "\n"@),
                decreases asg@.len() - i,
            {
                proof { lemma_join_step(xs, "\n"@, i as int); }
                push_sep(&mut inner, i, "\n");
                let t = render_assign(&asg[i]);
                push_str(&mut inner, t.as_str());
                i = i + 1;
            }
            assert(xs.take(xs.len() as int) =~= xs);
            let mut s = string_of("mutate state {\n");
            let t = indent(inner.as_str());
            push_str(&mut s, t.as_str());
            push_str(&mut s, "\n}");
            s
        },
        Stmt::Assign(a) => render_assign(a),
        Stmt::Let(lb) => {
            let mut s = string_of("let ");
            push_str(&mut s, lb.name.as_str());
            match &lb.ty {
                Some(t) => {
                    push_str(&mut s, ": ");
                    let u = render_type(t);
                    push_str(&mut s, u.as_str());
                },
                None => {},
            }
            push_str(&mut s, " = ");
            let v = pretty(&lb.value);
            push_str(&mut s, v.as_str());
            push_char(&mut s, ';');
            s
        },
        Stmt::If(is) => {
            let mut s = string_of("if ");
            let c = pretty(&is.condition);
            push_str(&mut s, c.as_str());
            push_str(&mut s, " {\n");
            let b = render_fstmts(&is.then_body);
            let bi = indent(b.as_str());
            push_str(&mut s, bi.as_str());
            push_str(&mut s, "\n}");
            match &is.else_body {
                Some(eb) => {
                    push_str(&mut s, " else {\n");
                    let e = render_fstmts(eb);
                    let ei = indent(e.as_str());
                    push_str(&mut s, ei.as_str());
                    push_str(&mut s, "\n}");
                },
                None => {},
            }
            s
        },
        Stmt::Match(ms) => {
            let mut s = string_of("match ");
            let c = pretty(&ms.scrutinee);
            push_str(&mut s, c.as_str());
            push_str(&mut s, " {\n");
            let a = render_farms(&ms.arms);
            let ai = indent(a.as_str());
            push_str(&mut s, ai.as_str());
            push_str(&mut s, "\n}");
            s
        },
        Stmt::Return(e) => match e {
            Some(x) => {
                let mut s = string_of("return ");
                let v = pretty(x);
                push_str(&mut s, v.as_str());
                push_char(&mut s, ';');
                s
            },
            None => string_of("return;"),
        },
    }
}

fn render_func(f: &Func) -> (r: String)
    ensures
        r@ == func_text(*f),
{
    let mut out = String::new();
    if f.attributes.len() > 0 {
        let a = render_attrs(&f.attributes);
        push_str(&mut out, a.as_str());
        push_str(&mut out, "\n");
    }
    push_str(&mut out, "func ");
    push_str(&mut out, f.name.as_str());
    push_str(&mut out, "(");
    let ghost ps = Seq::new(f.params@.len(), |i: int| param_text(f.params@[i]));
    let mut params = String::new();
    let mut i: usize = 0;
    while i < f.params.len()
        invariant
            i <= f.params@.len(),
            ps == Seq::new(f.params@.len(), |i: int| param_text(f.params@[i])),
            params@ == join(ps.take(i as int), ", "@),
        decreases f.params@.len() - i,
    {
        proof { lemma_join_step(ps, ", "@, i as int); }
        push_sep(&mut params, i, ", ");
        let p = &f.params[i];
        if p.mutability == ParamMutability::Mutable {
            push_str(&mut params, "mut ");
        }
        push_str(&mut params, p.name.as_str());
        push_str(&mut params, ": ");
        let t = render_type(&p.ty);
        push_str(&mut params, t.as_str());
        i = i + 1;
    }
    assert(ps.take(ps.len() as int) =~= ps);
    push_str(&mut out, params.as_str());
    push_str(&mut out, ")");
    match &f.return_ty {
        Some(t) => {
            push_str(&mut out, " -> ");
            let u = render_type(t);
            push_str(&mut out, u.as_str());
        },
        None => {},
    }
    let ghost cl = clause_texts(*f);
    let nr = f.requires.len();
    let ne = f.ensures.len();
    let mut clauses = String::new();
    let mut k: usize = 0;
    while k < nr
        invariant
            nr == f.requires@.len(),
            k <= nr,
            cl == clause_texts(*f),
            cl.len() == f.requires@.len() + f.ensures@.len(),
            clauses@ == join(cl.take(k as int), "\n"@),
        decreases nr - k,
    {
        proof { lemma_join_step(cl, "\n"@, k as int); }
        push_sep(&mut clauses, k, "\n");
        push_str(&mut clauses, "requires ");
        let t = pretty(&f.requires[k]);
        push_str(&mut clauses, t.as_str());
        k = k + 1;
    }
    let mut j: usize = 0;
    while j < ne
        invariant
            nr == f.requires@.len(),
            ne == f.ensures@.len(),
            j <= ne,
            cl == clause_texts(*f),
            cl.len() == nr + ne,
            clauses@ == join(cl.take(nr + j), "\n"@),
        decreases ne - j,
    {
        proof { lemma_join_step(cl, "\n"@, nr + j); }
        if nr > 0 || j > 0 {
            push_str(&mut clauses, "\n");
        }
        push_str(&mut clauses, "ensures ");
        let t = pretty(&f.ensures[j]);
        push_str(&mut clauses, t.as_str());
        j = j + 1;
    }
    assert(cl.take(cl.len() as int) =~= cl);
    if nr > 0 || ne > 0 {
        push_str(&mut out, "\n");
        let c = indent(clauses.as_str());
        push_str(&mut out, c.as_str());
    }
    if f.elided {
        push_str(&mut out, ";");
    } else {
        push_str(&mut out, "\n{\n");
        let b = render_fstmts(&f.body);
        let bi = indent(b.as_str());
        push_str(&mut out, bi.as_str());
        push_str(&mut out, "\n}");
    }
    assert(out@ =~= func_text(*f));
    out
}

fn render_item(it: &Item) -> (r: String)
    ensures
        r@ == item_text(*it),
{
    match it {
        Item::Invariant(i) => render_invariant(i),
        Item::Func(f) => render_func(f),
        Item::Struct(sd) => {
            let mut s = string_of("struct ");
            push_str(&mut s, sd.name.as_str());
            push_str(&mut s, " {\n");
            let b = render_fields(&sd.fields);
            push_str(&mut s, b.as_str());
            push_str(&mut s, "\n}");
            s
        },
        Item::Enum(e) => {
            let ghost xs = Seq::new(e.variants@.len(), |i: int| variant_text(e.variants@[i]));
            let mut inner = String::new();
            let mut i: usize = 0;
            while i < e.variants.len()
                invariant
                    i <= e.variants@.len(),
                    xs == Seq::new(e.variants@.len(), |i: int| variant_text(e.variants@[i])),
                    inner@ == join(xs.take(i as int), ",\n"@),
                decreases e.variants@.len() - i,
            {
                proof { lemma_join_step(xs, ",\n"@, i as int); }
                push_sep(&mut inner, i, ",\n");
                let v = &e.variants[i];
                push_str(&mut inner, v.name.as_str());
                if v.fields.len() > 0 {
                    push_str(&mut inner, " {\n");
                    let b = render_fields(&v.fields);
                    push_str(&mut inner, b.as_str());
                    push_str(&mut inner, "\n}");
                }
                i = i + 1;
            }
            assert(xs.take(xs.len() as int) =~= xs);
            let mut s = string_of("enum ");
            push_str(&mut s, e.name.as_str());
            push_str(&mut s, " {\n");
            let b = indent(inner.as_str());
            push_str(&mut s, b.as_str());
            push_str(&mut s, "\n}");
            s
        },
    }
}

fn render_module(m: &Module) -> (r: String)
    ensures
        r@ == module_text(*m),
{
    let mut s = String::new();
    if m.attributes.len() > 0 {
        let a = render_attrs(&m.attributes);
        push_str(&mut s, a.as_str());
        push_str(&mut s, "\nmodule ");
    } else {
        push_str(&mut s, "module ");
    }
    push_str(&mut s, m.name.as_str());
    push_str(&mut s, " ");
    let ghost xs = Seq::new(m.items@.len(), |i: int| item_text(m.items@[i]));
    let mut items = String::new();
    let mut i: usize = 0;
    while i < m.items.len()
        invariant
            i <= m.items@.len(),
            xs == Seq::new(m.items@.len(), |i: int| item_text(m.items@[i])),
            items@ == join(xs.take(i as int), "\n\n"@),
        decreases m.items@.len() - i,
    {
        proof { lemma_join_step(xs, "\n\n"@, i as int); }
        push_sep(&mut items, i, "\n\n");
        let t = render_item(&m.items[i]);
        push_str(&mut items, t.as_str());
        i = i + 1;
    }
    assert(xs.take(xs.len() as int) =~= xs);
    push_str(&mut s, "{\n");
    let b = indent(items.as_str());
    push_str(&mut s, b.as_str());
    push_str(&mut s, "\n}");
    assert(s@ =~= module_text(*m));
    s
}

/// Render parsed modules as canonical source: modules separated by a blank
/// line, the whole ending with a line break.
pub fn format_modules(modules: &Vec<Module>) -> (r: String)
    ensures
        r@ == format_spec(modules@),
{
    let ghost xs = Seq::new(modules@.len(), |i: int| module_text(modules@[i]));
    let mut out = String::new();
    let mut i: usize = 0;
    while i < modules.len()
        invariant
            i <= modules@.len(),
            xs == Seq::new(modules@.len(), |i: int| module_text(modules@[i])),
            out@ == join(xs.take(i as int), "\n\n"@),
        decreases modules@.len() - i,
    {
        proof { lemma_join_step(xs, "\n\n"@, i as int); }
        push_sep(&mut out, i, "\n\n");
        let t = render_module(&modules[i]);
        push_str(&mut out, t.as_str());
        i = i + 1;
    }
    assert(xs.take(xs.len() as int) =~= xs);
    let ends_nl = ends_with_newline(&out);
    if !ends_nl {
        push_str(&mut out, "\n");
    }
    out
}

fn ends_with_newline(s: &String) -> (r: bool)
    ensures
        r == (s@.len() > 0 && s@.last() == '\n'),
{
    let cs = crate::text::chars_of(s.as_str());
    cs.len() > 0 && cs[cs.len() - 1] == '\n'
}

/// Parse `text` and render it back as canonical source; the parse error
/// when it does not parse.
pub fn format_source(text: &str) -> (r: Result<String, String>)
    ensures
        r matches Ok(s) ==> exists|ms: Seq<Module>|
            (forall|k: int| 0 <= k < ms.len() ==> #[trigger] module_wf(ms[k])) && s@ == #[trigger] format_spec(ms),
        !crate::lexer::lex_ok_from(text@, 0) ==> (r matches Err(e) && e@ == crate::lexer::lex_error_from(text@, 0)),
        (crate::lexer::lex_ok_from(text@, 0) && crate::lexer::skip_gap(text@, 0) == text@.len() && text@.len() < usize::MAX)
            ==> (r matches Ok(s) && s@ == format_spec(Seq::empty())),
{
    let modules = parse(text)?;
    proof {
        if modules@.len() == 0 {
            assert(modules@ =~= Seq::<Module>::empty());
        }
    }
    let s = format_modules(&modules);
    assert(format_spec(modules@) == s@);
    Ok(s)
}

} // verus!
