//! Source analysis for an editor: parse and verify a document, and turn the
//! result into per-function reports, diagnostics, hover text and quick-fix
//! suggestions. Positions are 0-based lines and characters.

use vstd::prelude::*;
use crate::ast::{Module, Item, Func, Param, type_name_spec, has_eject_spec};
use crate::ir::VerificationProblem;
use crate::extract::{extract, cons_view, all_funcs, func_ok, all_invs, frames_all_ok, funcs_problems, problems_view, ConV};
use crate::verify::{verify, CheckResult, CheckV, checks_view, expected_checks, all_passed_spec, cex_ok};
use crate::solver::Model;
use crate::router::{route, target_spec, target_text};
use crate::parser::{parse, module_wf};
use crate::render::{pretty, pretty_spec};
use crate::lexer::{is_ws, ws};
use crate::format::{join, lemma_join_step};
use crate::prove::concat;
use crate::text::{string_of, push_str, push_char, copy_string, str_eq, chars_of, i64_text, int_text, usize_text, nat_digits};

verus! {

/// Diagnostic severities, as the Language Server Protocol numbers them.
pub const SEVERITY_ERROR: u8 = 1;
pub const SEVERITY_WARNING: u8 = 2;
pub const SEVERITY_INFO: u8 = 3;

/// A diagnostic over a range of the document.
#[derive(Debug, Clone, PartialEq, Eq)]
pub struct Diagnostic {
    pub line: usize,
    pub character: usize,
    pub end_line: usize,
    pub end_character: usize,
    pub severity: u8,
    pub message: String,
}

/// A function's contract together with its verification status.
#[derive(Debug, Clone)]
pub struct FuncReport {
    pub module: String,
    pub name: String,
    pub signature: String,
    pub requires: Vec<String>,
    pub ensures: Vec<String>,
    pub target: &'static str,
    pub ejected: bool,
    pub verified: bool,
    pub failures: Vec<String>,
    /// Counterexamples of failed checks: `(description, model)`.
    pub counterexamples: Vec<(String, Model)>,
    pub line: usize,
}

// ---------------------------------------------------------------------------
// Lines of text
// ---------------------------------------------------------------------------

/// The index of the first `'\n'` at or after `p`, or the length.
pub open spec fn line_end(s: Seq<char>, p: int) -> int
    decreases s.len() - p,
{
    if p < 0 || p >= s.len() || s[p] == '\n' {
        p
    } else {
        line_end(s, p + 1)
    }
}

pub proof fn lemma_line_end(s: Seq<char>, p: int)
    requires
        0 <= p <= s.len(),
    ensures
        p <= line_end(s, p) <= s.len(),
        forall|j: int| p <= j < line_end(s, p) ==> s[j] != '\n',
        line_end(s, p) < s.len() ==> s[line_end(s, p)] == '\n',
    decreases s.len() - p,
{
    if p < s.len() && s[p] != '\n' {
        lemma_line_end(s, p + 1);
    }
}

/// A line without its terminator: a `'\r'` before a `'\n'` goes with it.
pub open spec fn strip_cr(l: Seq<char>, had_nl: bool) -> Seq<char> {
    if had_nl && l.len() > 0 && l.last() == '\r' { l.drop_last() } else { l }
}

/// The lines from position `p` on, split at `\n` or `\r\n`; a final line
/// ending adds no empty line.
pub open spec fn lines_from(s: Seq<char>, p: int) -> Seq<Seq<char>>
    decreases s.len() - p,
{
    if p < 0 || p >= s.len() {
        Seq::empty()
    } else {
        proof { lemma_line_end(s, p); }
        let e = line_end(s, p);
        if e >= s.len() {
            seq![strip_cr(s.subrange(p, e), false)]
        } else {
            seq![strip_cr(s.subrange(p, e), true)] + lines_from(s, e + 1)
        }
    }
}

/// The lines of a text, as `str::lines` splits them.
pub open spec fn lines_spec(s: Seq<char>) -> Seq<Seq<char>> {
    lines_from(s, 0)
}

pub open spec fn lines_view(ls: Seq<Vec<char>>) -> Seq<Seq<char>> {
    ls.map_values(|l: Vec<char>| l@)
}

pub(crate) fn text_lines(text: &str) -> (r: Vec<Vec<char>>)
    ensures
        lines_view(r@) == lines_spec(text@),
{
    let s = chars_of(text);
    let n = s.len();
    let mut out: Vec<Vec<char>> = Vec::new();
    let mut p: usize = 0;
    assert(lines_view(out@) =~= Seq::<Seq<char>>::empty());
    while p < n
        invariant
            s@ == text@,
            n == s@.len(),
            p <= n,
            lines_spec(s@) == lines_view(out@) + lines_from(s@, p as int),
        decreases n - p,
    {
        proof { lemma_line_end(s@, p as int); }
        let mut e = p;
        while e < n && s[e] != '\n'
            invariant
                p <= e <= n,
                n == s@.len(),
                line_end(s@, p as int) == line_end(s@, e as int),
            decreases n - e,
        {
            e = e + 1;
        }
        let mut line: Vec<char> = Vec::new();
        let mut k = p;
        while k < e
            invariant
                p <= k <= e <= n,
                n == s@.len(),
                line@ == s@.subrange(p as int, k as int),
            decreases e - k,
        {
            line.push(s[k]);
            assert(line@ =~= s@.subrange(p as int, k + 1));
            k = k + 1;
        }
        if e < n && line.len() > 0 && line[line.len() - 1] == '\r' {
            line.pop();
            assert(line@ =~= s@.subrange(p as int, e as int).drop_last());
        }
        let ghost before = out@;
        out.push(line);
        assert(lines_view(out@) =~= lines_view(before).push(strip_cr(s@.subrange(p as int, e as int), e < n)));
        if e >= n {
            assert(lines_from(s@, p as int) == seq![strip_cr(s@.subrange(p as int, e as int), false)]);
            assert(lines_view(out@) =~= lines_spec(s@));
            return out;
        }
        assert(lines_from(s@, p as int) == seq![strip_cr(s@.subrange(p as int, e as int), true)] + lines_from(s@, e + 1));
        p = e + 1;
        assert(lines_spec(s@) =~= lines_view(out@) + lines_from(s@, p as int));
    }
    assert(lines_from(s@, p as int) =~= Seq::<Seq<char>>::empty());
    assert(lines_view(out@) =~= lines_spec(s@));
    out
}

/// The number of leading whitespace characters.
pub open spec fn lead_ws(s: Seq<char>) -> nat
    decreases s.len(),
{
    if s.len() > 0 && is_ws(s[0]) { lead_ws(s.drop_first()) + 1 } else { 0 }
}

pub proof fn lemma_lead_ws_len(s: Seq<char>)
    ensures
        lead_ws(s) <= s.len(),
    decreases s.len(),
{
    if s.len() > 0 && is_ws(s[0]) {
        lemma_lead_ws_len(s.drop_first());
    }
}

pub open spec fn trim_start_spec(s: Seq<char>) -> Seq<char> {
    s.skip(lead_ws(s) as int)
}

pub open spec fn starts_with_spec(s: Seq<char>, prefix: Seq<char>) -> bool {
    prefix.len() <= s.len() && s.take(prefix.len() as int) == prefix
}

/// The line declares function `name`: after leading whitespace it reads
/// `func`, a space, optional whitespace, then `name` alone or followed by
/// `(` or a space.
pub open spec fn declares_func(line: Seq<char>, name: Seq<char>) -> bool {
    let t = trim_start_spec(line);
    &&& starts_with_spec(t, "func "@)
    &&& {
        let rest = trim_start_spec(t.skip(5));
        ||| rest == name
        ||| starts_with_spec(rest, name + "("@)
        ||| starts_with_spec(rest, name + " "@)
    }
}

/// The first line from `i` on that declares `name`, or 0 when none does.
pub open spec fn func_line_from(ls: Seq<Seq<char>>, name: Seq<char>, i: int) -> int
    decreases ls.len() - i,
{
    if i < 0 || i >= ls.len() {
        0
    } else if declares_func(ls[i], name) {
        i
    } else {
        func_line_from(ls, name, i + 1)
    }
}

/// The 0-based line declaring function `name`, or 0.
pub open spec fn func_line_spec(text: Seq<char>, name: Seq<char>) -> int {
    func_line_from(lines_spec(text), name, 0)
}

fn trim_start(s: &Vec<char>, from: usize) -> (r: usize)
    requires
        from <= s@.len(),
    ensures
        from <= r <= s@.len(),
        s@.skip(r as int) == trim_start_spec(s@.skip(from as int)),
{
    let mut i = from;
    while i < s.len() && ws(s[i])
        invariant
            from <= i <= s@.len(),
            trim_start_spec(s@.skip(from as int)) == trim_start_spec(s@.skip(i as int)),
        decreases s@.len() - i,
    {
        assert(s@.skip(i as int).drop_first() =~= s@.skip(i + 1));
        let ghost k = lead_ws(s@.skip(i + 1));
        proof { lemma_lead_ws_len(s@.skip(i + 1)); }
        assert(lead_ws(s@.skip(i as int)) == k + 1);
        assert(s@.skip(i as int).skip((k + 1) as int) =~= s@.skip(i + 1).skip(k as int));
        i = i + 1;
    }
    assert(lead_ws(s@.skip(i as int)) == 0);
    assert(s@.skip(i as int).skip(0) =~= s@.skip(i as int));
    i
}

fn matches_at(s: &Vec<char>, at: usize, w: &Vec<char>) -> (r: bool)
    requires
        at <= s@.len(),
    ensures
        r == starts_with_spec(s@.skip(at as int), w@),
{
    if s.len() - at < w.len() {
        return false;
    }
    let mut j: usize = 0;
    while j < w.len()
        invariant
            at + w@.len() <= s@.len(),
            s@.len() <= usize::MAX,
            j <= w@.len(),
            forall|t: int| 0 <= t < j ==> s@[at + t] == w@[t],
        decreases w@.len() - j,
    {
        if s[at + j] != w[j] {
            assert(s@.skip(at as int).take(w@.len() as int)[j as int] != w@[j as int]);
            return false;
        }
        j = j + 1;
    }
    assert(s@.skip(at as int).take(w@.len() as int) =~= w@);
    true
}

fn declares(line: &Vec<char>, name: &str) -> (r: bool)
    ensures
        r == declares_func(line@, name@),
{
    let t = trim_start(line, 0);
    assert(line@.skip(0) =~= line@);
    let kw = chars_of("func ");
    proof { reveal_strlit("func "); }
    assert(kw@.len() == 5);
    if !matches_at(line, t, &kw) {
        return false;
    }
    assert(line@.skip(t as int).len() == line@.len() - t);
    assert(t + 5 <= line@.len());
    let ll = line.len();
    let r = trim_start(line, t + 5);
    assert(line@.skip(t as int).skip(5) =~= line@.skip(t + 5));
    let nm = chars_of(name);
    let rest_len = line.len() - r;
    let whole = rest_len == nm.len() && matches_at(line, r, &nm);
    if whole {
        assert(line@.skip(r as int) =~= line@.skip(r as int).take(nm@.len() as int));
        return true;
    }
    assert(line@.skip(r as int).take(line@.skip(r as int).len() as int) =~= line@.skip(r as int));
    assert(line@.skip(r as int) != name@);
    let mut with_paren = chars_of(name);
    with_paren.push('(');
    proof { reveal_strlit("("); }
    assert(with_paren@ =~= name@ + "("@);
    if matches_at(line, r, &with_paren) {
        return true;
    }
    let mut with_space = chars_of(name);
    with_space.push(' ');
    proof { reveal_strlit(" "); }
    assert(with_space@ =~= name@ + " "@);
    matches_at(line, r, &with_space)
}

fn find_func_line(lines: &Vec<Vec<char>>, name: &str) -> (r: usize)
    ensures
        r == func_line_from(lines_view(lines@), name@, 0),
{
    let ghost ls = lines_view(lines@);
    let mut i: usize = 0;
    while i < lines.len()
        invariant
            i <= lines@.len(),
            ls == lines_view(lines@),
            func_line_from(ls, name@, 0) == func_line_from(ls, name@, i as int),
        decreases lines@.len() - i,
    {
        if declares(&lines[i], name) {
            return i;
        }
        i = i + 1;
    }
    0
}

/// The number of characters on line `k`, or 0 past the last line.
pub open spec fn line_len_spec(ls: Seq<Seq<char>>, k: int) -> int {
    if 0 <= k < ls.len() { ls[k].len() as int } else { 0 }
}

fn line_len(lines: &Vec<Vec<char>>, k: usize) -> (r: usize)
    ensures
        r == line_len_spec(lines_view(lines@), k as int),
{
    if k < lines.len() { lines[k].len() } else { 0 }
}

// ---------------------------------------------------------------------------
// Positions of errors and words
// ---------------------------------------------------------------------------

/// `(line, column)` after reading the characters of `t`.
pub open spec fn line_col_of(t: Seq<char>) -> (int, int)
    decreases t.len(),
{
    if t.len() == 0 {
        (0, 0)
    } else {
        let (l, c) = line_col_of(t.drop_last());
        if t.last() == '\n' { (l + 1, 0) } else { (l, c + 1) }
    }
}

/// The 0-based `(line, column)` of char offset `off` (of the end, past it).
pub open spec fn offset_line_col(text: Seq<char>, off: int) -> (int, int) {
    line_col_of(text.take(if off < text.len() { off } else { text.len() as int }))
}

/// The first index of `pat` in `s`, from `i` on.
pub open spec fn find_from(s: Seq<char>, pat: Seq<char>, i: int) -> Option<int>
    decreases s.len() + 1 - i,
{
    if i < 0 || i + pat.len() > s.len() {
        None
    } else if s.subrange(i, i + pat.len()) == pat {
        Some(i)
    } else {
        find_from(s, pat, i + 1)
    }
}

/// Where an error message points: after `offset ` come the digits of a
/// char offset; without them, or when they overflow, the top of the text.
pub open spec fn error_pos_spec(text: Seq<char>, msg: Seq<char>) -> (int, int) {
    match find_from(msg, "offset "@, 0) {
        Some(i) => {
            let a = i + 7;
            let b = crate::json::digits_end(msg, a);
            let v = crate::json::digits_val(msg.subrange(a, b));
            if b > a && v <= usize::MAX { offset_line_col(text, v as int) } else { (0, 0) }
        },
        None => (0, 0),
    }
}

fn offset_to_line_col(text: &Vec<char>, off: usize) -> (r: (usize, usize))
    ensures
        r.0 as int == offset_line_col(text@, off as int).0,
        r.1 as int == offset_line_col(text@, off as int).1,
{
    let mut line: usize = 0;
    let mut col: usize = 0;
    let mut i: usize = 0;
    let lim = if off < text.len() { off } else { text.len() };
    while i < lim
        invariant
            lim <= text@.len(),
            i <= lim,
            line <= i,
            col <= i,
            (line as int, col as int) == line_col_of(text@.take(i as int)),
        decreases lim - i,
    {
        assert(text@.take(i + 1).drop_last() =~= text@.take(i as int));
        if text[i] == '\n' {
            line = line + 1;
            col = 0;
        } else {
            col = col + 1;
        }
        i = i + 1;
    }
    (line, col)
}

fn find_sub(m: &Vec<char>, pat: &Vec<char>) -> (r: Option<usize>)
    requires
        pat@.len() > 0,
    ensures
        match r {
            Some(i) => find_from(m@, pat@, 0) == Some(i as int) && i + pat@.len() <= m@.len(),
            None => find_from(m@, pat@, 0) is None,
        },
{
    if m.len() < pat.len() {
        return None;
    }
    let last = m.len() - pat.len();
    let mut i: usize = 0;
    while i <= last
        invariant
            last == m@.len() - pat@.len(),
            m@.len() <= usize::MAX,
            pat@.len() > 0,
            i <= last + 1,
            find_from(m@, pat@, 0) == find_from(m@, pat@, i as int),
        decreases last + 1 - i,
    {
        assert(m@.skip(i as int).take(pat@.len() as int) =~= m@.subrange(i as int, i + pat@.len()));
        if matches_at(m, i, pat) {
            return Some(i);
        }
        i = i + 1;
    }
    None
}

fn error_position(text: &Vec<char>, msg: &str) -> (r: (usize, usize))
    ensures
        r.0 as int == error_pos_spec(text@, msg@).0,
        r.1 as int == error_pos_spec(text@, msg@).1,
{
    let m = chars_of(msg);
    let pat = chars_of("offset ");
    proof { reveal_strlit("offset "); }
    assert(pat@.len() == 7);
    let i = match find_sub(&m, &pat) {
        Some(i) => i,
        None => return (0, 0),
    };
    assert(find_from(m@, pat@, 0) == Some(i as int));
    let ml = m.len();
    assert(i + 7 <= ml);
    let a = i + 7;
    let mut b = a;
    while b < m.len() && '0' <= m[b] && m[b] <= '9'
        invariant
            a <= b <= m@.len(),
            crate::json::digits_end(m@, a as int) == crate::json::digits_end(m@, b as int),
            forall|j: int| a <= j < b ==> crate::lexer::is_digit(#[trigger] m@[j]),
        decreases m@.len() - b,
    {
        b = b + 1;
    }
    if b == a {
        return (0, 0);
    }
    let v = crate::json::capped_digits(&m, a, b, 0xffff_ffff_ffff_ffff);
    match v {
        None => (0, 0),
        Some(x) => {
            if x > usize::MAX as u128 {
                return (0, 0);
            }
            offset_to_line_col(text, x as usize)
        },
    }
}


// ---------------------------------------------------------------------------
// Words and signatures
// ---------------------------------------------------------------------------

/// An ASCII letter or digit, or `_`.
pub open spec fn is_ident_char(c: char) -> bool {
    ('a' <= c && c <= 'z') || ('A' <= c && c <= 'Z') || ('0' <= c && c <= '9') || c == '_'
}

fn ident_char(c: char) -> (r: bool)
    ensures
        r == is_ident_char(c),
{
    ('a' <= c && c <= 'z') || ('A' <= c && c <= 'Z') || ('0' <= c && c <= '9') || c == '_'
}

/// The first index of the run of identifier characters that ends at `i`.
pub open spec fn left_end(cs: Seq<char>, i: int) -> int
    decreases i,
{
    if 0 < i <= cs.len() && is_ident_char(cs[i - 1]) { left_end(cs, i - 1) } else { i }
}

/// The last index of the run of identifier characters that starts at `i`.
pub open spec fn right_end(cs: Seq<char>, i: int) -> int
    decreases cs.len() - i,
{
    if 0 <= i && i + 1 < cs.len() && is_ident_char(cs[i + 1]) { right_end(cs, i + 1) } else { i }
}

/// The identifier under column `ch` of a line: at the column, or just
/// before it when the cursor sits right after an identifier.
pub open spec fn word_in(cs: Seq<char>, ch: int) -> Option<Seq<char>> {
    if cs.len() == 0 {
        None
    } else {
        let s0 = if ch < cs.len() { ch } else { cs.len() as int };
        let s1 = if s0 > 0 && (s0 >= cs.len() || !is_ident_char(cs[s0])) && is_ident_char(cs[s0 - 1]) { s0 - 1 } else { s0 };
        if s1 >= cs.len() || !is_ident_char(cs[s1]) {
            None
        } else {
            Some(cs.subrange(left_end(cs, s1), right_end(cs, s1) + 1))
        }
    }
}

pub open spec fn word_at_spec(ls: Seq<Seq<char>>, line: int, ch: int) -> Option<Seq<char>> {
    if 0 <= line < ls.len() { word_in(ls[line], ch) } else { None }
}

fn word_at(lines: &Vec<Vec<char>>, line: usize, character: usize) -> (r: Option<String>)
    ensures
        match r {
            Some(w) => word_at_spec(lines_view(lines@), line as int, character as int) == Some(w@),
            None => word_at_spec(lines_view(lines@), line as int, character as int) is None,
        },
{
    if line >= lines.len() {
        return None;
    }
    let cs = &lines[line];
    let n = cs.len();
    if n == 0 {
        return None;
    }
    let mut start = if character < n { character } else { n };
    if start > 0 && (start >= n || !ident_char(cs[start])) && ident_char(cs[start - 1]) {
        start = start - 1;
    }
    if start >= n || !ident_char(cs[start]) {
        return None;
    }
    let mut lo = start;
    while lo > 0 && ident_char(cs[lo - 1])
        invariant
            lo <= start < n,
            n == cs@.len(),
            left_end(cs@, start as int) == left_end(cs@, lo as int),
        decreases lo,
    {
        lo = lo - 1;
    }
    let mut hi = start;
    while hi + 1 < n && ident_char(cs[hi + 1])
        invariant
            start <= hi < n,
            n == cs@.len(),
            right_end(cs@, start as int) == right_end(cs@, hi as int),
        decreases n - hi,
    {
        hi = hi + 1;
    }
    let mut w = String::new();
    let mut k = lo;
    while k <= hi
        invariant
            lo <= k <= hi + 1,
            hi < n,
            n == cs@.len(),
            w@ == cs@.subrange(lo as int, k as int),
        decreases hi + 1 - k,
    {
        push_char(&mut w, cs[k]);
        assert(w@ =~= cs@.subrange(lo as int, k + 1));
        k = k + 1;
    }
    Some(w)
}

/// `name(p: T, ...)`, each parameter with its type's outermost name.
pub open spec fn signature_spec(f: Func) -> Seq<char> {
    f.name@ + "("@ + join(Seq::new(f.params@.len(), |i: int| f.params@[i].name@ + ": "@ + type_name_spec(f.params@[i].ty)), ", "@) + ")"@
}

fn signature(f: &Func) -> (r: String)
    ensures
        r@ == signature_spec(*f),
{
    let ghost xs = Seq::new(f.params@.len(), |i: int| f.params@[i].name@ + ": "@ + type_name_spec(f.params@[i].ty));
    let mut ps = String::new();
    let mut i: usize = 0;
    while i < f.params.len()
        invariant
            i <= f.params@.len(),
            xs == Seq::new(f.params@.len(), |i: int| f.params@[i].name@ + ": "@ + type_name_spec(f.params@[i].ty)),
            ps@ == join(xs.take(i as int), ", "@),
        decreases f.params@.len() - i,
    {
        proof { lemma_join_step(xs, ", "@, i as int); }
        if i > 0 {
            push_str(&mut ps, ", ");
        }
        push_str(&mut ps, f.params[i].name.as_str());
        push_str(&mut ps, ": ");
        push_str(&mut ps, f.params[i].ty.name());
        i = i + 1;
    }
    assert(xs.take(xs.len() as int) =~= xs);
    let mut s = string_of(f.name.as_str());
    push_str(&mut s, "(");
    push_str(&mut s, ps.as_str());
    push_str(&mut s, ")");
    s
}

// ---------------------------------------------------------------------------
// Reports
// ---------------------------------------------------------------------------

/// The functions of `items`, each with its module, in order.
pub open spec fn item_funcs_in(m: Module, items: Seq<Item>) -> Seq<(Module, Func)>
    decreases items.len(),
{
    if items.len() == 0 {
        Seq::empty()
    } else {
        item_funcs_in(m, items.drop_last()) + match items.last() {
            Item::Func(f) => seq![(m, f)],
            _ => Seq::empty(),
        }
    }
}

/// The functions of all modules, each with its module, in order.
pub open spec fn module_funcs(ms: Seq<Module>) -> Seq<(Module, Func)>
    decreases ms.len(),
{
    if ms.len() == 0 {
        Seq::empty()
    } else {
        module_funcs(ms.drop_last()) + item_funcs_in(ms.last(), ms.last().items@)
    }
}

/// The first problem for a function named `name`.
pub open spec fn first_problem(ps: Seq<VerificationProblem>, name: Seq<char>) -> Option<VerificationProblem>
    decreases ps.len(),
{
    if ps.len() == 0 {
        None
    } else if ps[0].func_name@ == name {
        Some(ps[0])
    } else {
        first_problem(ps.drop_first(), name)
    }
}

/// The descriptions of the failed checks, in order.
pub open spec fn failed_of(cvs: Seq<CheckV>) -> Seq<Seq<char>>
    decreases cvs.len(),
{
    if cvs.len() == 0 {
        Seq::empty()
    } else {
        failed_of(cvs.drop_last()) + if !cvs.last().1 { seq![cvs.last().0] } else { Seq::empty() }
    }
}

/// The counterexamples of the failed checks that have one, in order.
pub open spec fn ces_of(cs: Seq<CheckResult>) -> Seq<(Seq<char>, Seq<(Seq<char>, int)>)>
    decreases cs.len(),
{
    if cs.len() == 0 {
        Seq::empty()
    } else {
        ces_of(cs.drop_last()) + match cs.last().counterexample {
            Some(m) => if !cs.last().passed { seq![(cs.last().description@, m@)] } else { Seq::empty() },
            None => Seq::empty(),
        }
    }
}

pub open spec fn ces_view(v: Seq<(String, Model)>) -> Seq<(Seq<char>, Seq<(Seq<char>, int)>)> {
    v.map_values(|p: (String, Model)| (p.0@, p.1@))
}

pub open spec fn texts_of(v: Seq<String>) -> Seq<Seq<char>> {
    v.map_values(|s: String| s@)
}

/// What a report says of function `f` of module `m` in `text`, given the
/// problems extracted from the program.
pub open spec fn report_ok(text: Seq<char>, m: Module, f: Func, ps: Seq<VerificationProblem>, r: FuncReport) -> bool {
    &&& r.module@ == m.name@
    &&& r.name@ == f.name@
    &&& r.signature@ == signature_spec(f)
    &&& texts_of(r.requires@) == f.requires@.map_values(|e: crate::ast::Expr| pretty_spec(e))
    &&& texts_of(r.ensures@) == f.ensures@.map_values(|e: crate::ast::Expr| pretty_spec(e))
    &&& r.target@ == target_text(target_spec(m.attributes@))
    &&& r.ejected == has_eject_spec(f.attributes@)
    &&& r.line == func_line_spec(text, f.name@)
    &&& match first_problem(ps, f.name@) {
        None => r.verified && r.failures@.len() == 0 && r.counterexamples@.len() == 0,
        Some(p) => {
            let pre = cons_view(p.premises@);
            &&& r.verified == all_passed_spec(pre, p.conclusions@)
            &&& texts_of(r.failures@) == failed_of(expected_checks(pre, p.conclusions@))
            &&& exists|cs: Seq<CheckResult>| #[trigger] checks_view(cs) == expected_checks(pre, p.conclusions@)
                && (forall|i: int| 0 <= i < cs.len() ==> cex_ok(#[trigger] cs[i], pre, p.conclusions@))
                && ces_view(r.counterexamples@) == ces_of(cs)
        },
    }
}

/// One report per function of `ms`, in order, each as [`report_ok`] says.
pub open spec fn reports_ok(text: Seq<char>, ms: Seq<Module>, ps: Seq<VerificationProblem>, rs: Seq<FuncReport>) -> bool {
    &&& rs.len() == module_funcs(ms).len()
    &&& forall|k: int| 0 <= k < rs.len() ==> #[trigger] report_ok(text, module_funcs(ms)[k].0, module_funcs(ms)[k].1, ps, rs[k])
}

proof fn lemma_failed_of(cs: Seq<CheckResult>, i: int)
    requires
        0 <= i < cs.len(),
    ensures
        failed_of(checks_view(cs.take(i + 1))) == failed_of(checks_view(cs.take(i)))
            + if !cs[i].passed { seq![cs[i].description@] } else { Seq::<Seq<char>>::empty() },
        ces_of(cs.take(i + 1)) == ces_of(cs.take(i)) + match cs[i].counterexample {
            Some(m) => if !cs[i].passed { seq![(cs[i].description@, m@)] } else { Seq::empty() },
            None => Seq::empty(),
        },
{
    assert(checks_view(cs.take(i + 1)).drop_last() =~= checks_view(cs.take(i)));
    assert(cs.take(i + 1).drop_last() =~= cs.take(i));
}

fn first_problem_index(problems: &Vec<VerificationProblem>, name: &str) -> (r: Option<usize>)
    ensures
        match r {
            Some(i) => i < problems@.len() && first_problem(problems@, name@) == Some(problems@[i as int]),
            None => first_problem(problems@, name@) is None,
        },
{
    let mut i: usize = 0;
    assert(problems@.skip(0) =~= problems@);
    while i < problems.len()
        invariant
            i <= problems@.len(),
            first_problem(problems@, name@) == first_problem(problems@.skip(i as int), name@),
        decreases problems@.len() - i,
    {
        assert(problems@.skip(i as int)[0] == problems@[i as int]);
        if str_eq(problems[i].func_name.as_str(), name) {
            return Some(i);
        }
        assert(problems@.skip(i as int).drop_first() =~= problems@.skip(i + 1));
        i = i + 1;
    }
    None
}

fn report_of(text: &str, lines: &Vec<Vec<char>>, m: &Module, f: &Func, problems: &Vec<VerificationProblem>) -> (r: FuncReport)
    requires
        lines_view(lines@) == lines_spec(text@),
    ensures
        report_ok(text@, *m, *f, problems@, r),
{
    let mut req_texts: Vec<String> = Vec::new();
    let mut i: usize = 0;
    while i < f.requires.len()
        invariant
            i <= f.requires@.len(),
            texts_of(req_texts@) == f.requires@.take(i as int).map_values(|e: crate::ast::Expr| pretty_spec(e)),
        decreases f.requires@.len() - i,
    {
        let ghost before = req_texts@;
        req_texts.push(pretty(&f.requires[i]));
        assert(texts_of(req_texts@) =~= texts_of(before).push(pretty_spec(f.requires@[i as int])));
        assert(f.requires@.take(i + 1).map_values(|e: crate::ast::Expr| pretty_spec(e)) =~= f.requires@.take(i as int).map_values(|e: crate::ast::Expr| pretty_spec(e)).push(pretty_spec(f.requires@[i as int])));
        i = i + 1;
    }
    assert(f.requires@.take(f.requires@.len() as int) =~= f.requires@);
    let mut ens_texts: Vec<String> = Vec::new();
    let mut i: usize = 0;
    while i < f.ensures.len()
        invariant
            i <= f.ensures@.len(),
            texts_of(ens_texts@) == f.ensures@.take(i as int).map_values(|e: crate::ast::Expr| pretty_spec(e)),
        decreases f.ensures@.len() - i,
    {
        let ghost before = ens_texts@;
        ens_texts.push(pretty(&f.ensures[i]));
        assert(texts_of(ens_texts@) =~= texts_of(before).push(pretty_spec(f.ensures@[i as int])));
        assert(f.ensures@.take(i + 1).map_values(|e: crate::ast::Expr| pretty_spec(e)) =~= f.ensures@.take(i as int).map_values(|e: crate::ast::Expr| pretty_spec(e)).push(pretty_spec(f.ensures@[i as int])));
        i = i + 1;
    }
    assert(f.ensures@.take(f.ensures@.len() as int) =~= f.ensures@);
    let mut verified = true;
    let mut failures: Vec<String> = Vec::new();
    let mut ces: Vec<(String, Model)> = Vec::new();
    match first_problem_index(problems, f.name.as_str()) {
        None => {},
        Some(pi) => {
            let res = verify(&problems[pi]);
            let ghost p = problems@[pi as int];
            let ghost pre = cons_view(p.premises@);
            verified = res.all_passed;
            let checks = &res.checks;
            let mut k: usize = 0;
            assert(checks_view(checks@.take(0)) =~= Seq::<CheckV>::empty());
            assert(checks@.take(0) =~= Seq::<CheckResult>::empty());
            assert(texts_of(failures@) =~= Seq::<Seq<char>>::empty());
            assert(ces_view(ces@) =~= Seq::<(Seq<char>, Seq<(Seq<char>, int)>)>::empty());
            while k < checks.len()
                invariant
                    k <= checks@.len(),
                    texts_of(failures@) == failed_of(checks_view(checks@.take(k as int))),
                    ces_view(ces@) == ces_of(checks@.take(k as int)),
                decreases checks@.len() - k,
            {
                proof { lemma_failed_of(checks@, k as int); }
                let c = &checks[k];
                if !c.passed {
                    let ghost bf = failures@;
                    failures.push(copy_string(&c.description));
                    assert(texts_of(failures@) =~= texts_of(bf).push(c.description@));
                    match &c.counterexample {
                        Some(mdl) => {
                            let ghost bc = ces@;
                            ces.push((copy_string(&c.description), mdl.copy()));
                            assert(ces_view(ces@) =~= ces_view(bc).push((c.description@, mdl@)));
                        },
                        None => {},
                    }
                }
                k = k + 1;
            }
            assert(checks@.take(checks@.len() as int) =~= checks@);
            assert(checks_view(checks@) == expected_checks(pre, p.conclusions@));
        },
    }
    let target = route(m.attributes.as_slice()).target.as_str();
    FuncReport {
        module: copy_string(&m.name),
        name: copy_string(&f.name),
        signature: signature(f),
        requires: req_texts,
        ensures: ens_texts,
        target,
        ejected: f.is_ejected(),
        verified,
        failures,
        counterexamples: ces,
        line: find_func_line(lines, f.name.as_str()),
    }
}

/// One report per function of `modules`, in order, given the problems
/// extracted from them.
pub fn reports_for(text: &str, modules: &Vec<Module>, problems: &Vec<VerificationProblem>) -> (r: Vec<FuncReport>)
    ensures
        reports_ok(text@, modules@, problems@, r@),
{
    let lines = text_lines(text);
    let mut out: Vec<FuncReport> = Vec::new();
    let mut i: usize = 0;
    while i < modules.len()
        invariant
            i <= modules@.len(),
            lines_view(lines@) == lines_spec(text@),
            reports_ok(text@, modules@.take(i as int), problems@, out@),
        decreases modules@.len() - i,
    {
        let m = &modules[i];
        assert(modules@.take(i + 1).drop_last() =~= modules@.take(i as int));
        let ghost base = out@;
        let ghost fs_before = module_funcs(modules@.take(i as int));
        let mut j: usize = 0;
        while j < m.items.len()
            invariant
                i < modules@.len(),
                *m == modules@[i as int],
                j <= m.items@.len(),
                lines_view(lines@) == lines_spec(text@),
                fs_before == module_funcs(modules@.take(i as int)),
                reports_ok(text@, modules@.take(i as int), problems@, base),
                out@.len() == base.len() + item_funcs_in(*m, m.items@.take(j as int)).len(),
                forall|k: int| 0 <= k < base.len() ==> #[trigger] out@[k] == base[k],
                forall|k: int| 0 <= k < item_funcs_in(*m, m.items@.take(j as int)).len() ==>
                    report_ok(text@, item_funcs_in(*m, m.items@.take(j as int))[k].0, item_funcs_in(*m, m.items@.take(j as int))[k].1, problems@, #[trigger] out@[base.len() + k]),
            decreases m.items@.len() - j,
        {
            assert(m.items@.take(j + 1).drop_last() =~= m.items@.take(j as int));
            match &m.items[j] {
                Item::Func(f) => {
                    let r = report_of(text, &lines, m, f, problems);
                    out.push(r);
                },
                _ => {},
            }
            j = j + 1;
        }
        assert(m.items@.take(m.items@.len() as int) =~= m.items@);
        proof {
            let ms = modules@.take(i + 1);
            assert(module_funcs(ms) == fs_before + item_funcs_in(*m, m.items@));
            assert forall|k: int| 0 <= k < out@.len() implies #[trigger] report_ok(text@, module_funcs(ms)[k].0, module_funcs(ms)[k].1, problems@, out@[k]) by {
                if k < base.len() {
                    assert(report_ok(text@, fs_before[k].0, fs_before[k].1, problems@, base[k]));
                } else {
                    let kk = k - base.len();
                    assert(report_ok(text@, item_funcs_in(*m, m.items@)[kk].0, item_funcs_in(*m, m.items@)[kk].1, problems@, out@[base.len() + kk]));
                }
            }
        }
        i = i + 1;
    }
    assert(modules@.take(modules@.len() as int) =~= modules@);
    out
}

/// The problems `ps` are those extracted from the functions of `ms`.
pub open spec fn problems_from(ms: Seq<Module>, ps: Seq<VerificationProblem>) -> bool {
    exists|frames: Seq<Seq<ConV>>|
        frames_all_ok(all_funcs(ms), all_invs(ms), frames)
        && #[trigger] funcs_problems(all_funcs(ms), all_invs(ms), frames) == Some(problems_view(ps))
}

/// `rs` is the analysis of `text`: reports for the functions of modules the
/// parser produced, against the problems extracted from them.
pub open spec fn analysis_of(text: Seq<char>, rs: Seq<FuncReport>) -> bool {
    exists|ms: Seq<Module>, ps: Seq<VerificationProblem>|
        (forall|k: int| 0 <= k < ms.len() ==> #[trigger] module_wf(ms[k]))
        && problems_from(ms, ps)
        && #[trigger] reports_ok(text, ms, ps, rs)
}

/// The analysis of a document that does not lex (its lexing error), or of a
/// blank one (no reports); `None` for any other document.
pub open spec fn known_analysis(text: Seq<char>) -> Option<Result<Seq<FuncReport>, Seq<char>>> {
    if !crate::lexer::lex_ok_from(text, 0) {
        Some(Err(crate::lexer::lex_error_from(text, 0)))
    } else if crate::lexer::skip_gap(text, 0) == text.len() && text.len() < usize::MAX {
        Some(Ok(Seq::empty()))
    } else {
        None
    }
}

/// Analyse a document: one report per function, or the parse or extraction
/// error.
pub fn analyze(text: &str) -> (r: Result<Vec<FuncReport>, String>)
    ensures
        r matches Ok(rs) ==> analysis_of(text@, rs@),
        !crate::lexer::lex_ok_from(text@, 0) ==> (r matches Err(e) && e@ == crate::lexer::lex_error_from(text@, 0)),
        (crate::lexer::lex_ok_from(text@, 0) && crate::lexer::skip_gap(text@, 0) == text@.len() && text@.len() < usize::MAX)
            ==> (r matches Ok(rs) && rs@.len() == 0),
        known_analysis(text@) matches Some(a) ==> analysis_view(r) == a,
{
    let modules = parse(text)?;
    let problems = extract(&modules)?;
    let reports = reports_for(text, &modules, &problems);
    assert(reports_ok(text@, modules@, problems@, reports@));
    proof {
        if reports@.len() == 0 {
            assert(reports@ =~= Seq::<FuncReport>::empty());
        }
    }
    Ok(reports)
}


// ---------------------------------------------------------------------------
// Diagnostics
// ---------------------------------------------------------------------------

/// A diagnostic as plain values: range, severity and message.
pub type DiagV = (int, int, int, int, u8, Seq<char>);

pub open spec fn diag_view(d: Diagnostic) -> DiagV {
    (d.line as int, d.character as int, d.end_line as int, d.end_character as int, d.severity, d.message@)
}

pub open spec fn diags_view(ds: Seq<Diagnostic>) -> Seq<DiagV> {
    ds.map_values(|d: Diagnostic| diag_view(d))
}

/// `k=v, ...` over a model's bindings, in order.
pub open spec fn bindings_text(mv: Seq<(Seq<char>, int)>) -> Seq<char> {
    join(Seq::new(mv.len(), |i: int| mv[i].0 + "="@ + int_text(mv[i].1)), ", "@)
}

/// The first counterexample from `j` on described as `d`, or the length.
pub open spec fn next_ce(ces: Seq<(Seq<char>, Seq<(Seq<char>, int)>)>, j: int, d: Seq<char>) -> int
    decreases ces.len() - j,
{
    if j < 0 || j >= ces.len() {
        ces.len() as int
    } else if ces[j].0 == d {
        j
    } else {
        next_ce(ces, j + 1, d)
    }
}

/// The messages for the failures from `i` on: each names the failure and,
/// when one is found among the counterexamples not yet used (searching on
/// from `j`), gives its bindings.
pub open spec fn fail_msgs(fails: Seq<Seq<char>>, i: int, ces: Seq<(Seq<char>, Seq<(Seq<char>, int)>)>, j: int, prefix: Seq<char>) -> Seq<Seq<char>>
    decreases fails.len() - i,
{
    if i < 0 || i >= fails.len() {
        Seq::empty()
    } else {
        let k = next_ce(ces, j, fails[i]);
        let msg = prefix + ": "@ + fails[i]
            + if k < ces.len() { " — counterexample: {"@ + bindings_text(ces[k].1) + "}"@ } else { Seq::empty() };
        seq![msg] + fail_msgs(fails, i + 1, ces, if k < ces.len() { k + 1 } else { ces.len() as int }, prefix)
    }
}

pub open spec fn prefix_of(ejected: bool) -> Seq<char> {
    if ejected { "ejected (trusted) — boundary guard enforces"@ } else { "contract not satisfied"@ }
}

pub open spec fn severity_of(ejected: bool) -> u8 {
    if ejected { SEVERITY_INFO } else { SEVERITY_ERROR }
}

/// The diagnostics of one report: none when verified, else one per failure
/// spanning the function's line.
pub open spec fn report_diags(ls: Seq<Seq<char>>, r: FuncReport) -> Seq<DiagV> {
    if r.verified {
        Seq::empty()
    } else {
        let msgs = fail_msgs(texts_of(r.failures@), 0, ces_view(r.counterexamples@), 0, prefix_of(r.ejected));
        msgs.map_values(|m: Seq<char>| (r.line as int, 0int, r.line as int, line_len_spec(ls, r.line as int), severity_of(r.ejected), m))
    }
}

pub open spec fn reports_diags(ls: Seq<Seq<char>>, rs: Seq<FuncReport>) -> Seq<DiagV>
    decreases rs.len(),
{
    if rs.len() == 0 {
        Seq::empty()
    } else {
        reports_diags(ls, rs.drop_last()) + report_diags(ls, rs.last())
    }
}

/// The diagnostics of an analysis: its error at the position the message
/// points to, or the diagnostics of its reports.
pub open spec fn diagnostics_spec(text: Seq<char>, a: Result<Seq<FuncReport>, Seq<char>>) -> Seq<DiagV> {
    match a {
        Err(e) => {
            let (l, c) = error_pos_spec(text, e);
            seq![(l, c, l, if c < usize::MAX { c + 1 } else { c }, SEVERITY_ERROR, e)]
        },
        Ok(rs) => reports_diags(lines_spec(text), rs),
    }
}

pub open spec fn analysis_view(a: Result<Vec<FuncReport>, String>) -> Result<Seq<FuncReport>, Seq<char>> {
    match a {
        Ok(rs) => Ok(rs@),
        Err(e) => Err(e@),
    }
}

pub(crate) fn push_bindings(out: &mut String, m: &Model)
    ensures
        final(out)@ == old(out)@ + bindings_text(m@),
{
    let bs = m.bindings();
    let ghost mv = m@;
    let ghost xs = Seq::new(mv.len(), |i: int| mv[i].0 + "="@ + int_text(mv[i].1));
    let ghost base = out@;
    let mut i: usize = 0;
    assert(base =~= base + join(xs.take(0), ", "@));
    while i < bs.len()
        invariant
            i <= bs@.len(),
            crate::ir::terms_view(bs@) == mv,
            xs == Seq::new(mv.len(), |i: int| mv[i].0 + "="@ + int_text(mv[i].1)),
            out@ == base + join(xs.take(i as int), ", "@),
        decreases bs@.len() - i,
    {
        proof { lemma_join_step(xs, ", "@, i as int); }
        let ghost before = out@;
        if i > 0 {
            push_str(out, ", ");
        }
        push_str(out, bs[i].0.as_str());
        push_str(out, "=");
        let v = i64_text(bs[i].1);
        push_str(out, v.as_str());
        assert(mv[i as int] == (bs@[i as int].0@, bs@[i as int].1 as int));
        assert(out@ =~= base + join(xs.take(i + 1), ", "@));
        i = i + 1;
    }
    assert(xs.take(xs.len() as int) =~= xs);
}

fn find_ce(ces: &Vec<(String, Model)>, j: usize, d: &str) -> (r: usize)
    requires
        j <= ces@.len(),
    ensures
        r as int == next_ce(ces_view(ces@), j as int, d@),
        r <= ces@.len(),
{
    let mut k = j;
    while k < ces.len()
        invariant
            j <= k <= ces@.len(),
            next_ce(ces_view(ces@), j as int, d@) == next_ce(ces_view(ces@), k as int, d@),
        decreases ces@.len() - k,
    {
        if str_eq(ces[k].0.as_str(), d) {
            return k;
        }
        k = k + 1;
    }
    k
}

fn report_diagnostics(out: &mut Vec<Diagnostic>, lines: &Vec<Vec<char>>, r: &FuncReport)
    ensures
        diags_view(final(out)@) == diags_view(old(out)@) + report_diags(lines_view(lines@), *r),
{
    if r.verified {
        assert(diags_view(out@) =~= diags_view(out@) + Seq::<DiagV>::empty());
        return;
    }
    let severity = if r.ejected { SEVERITY_INFO } else { SEVERITY_ERROR };
    let prefix = if r.ejected { "ejected (trusted) — boundary guard enforces" } else { "contract not satisfied" };
    let end = line_len(lines, r.line);
    let ghost fails = texts_of(r.failures@);
    let ghost cv = ces_view(r.counterexamples@);
    let ghost all = fail_msgs(fails, 0, cv, 0, prefix@);
    let ghost base = out@;
    let ghost mut done: Seq<Seq<char>> = Seq::empty();
    let mut i: usize = 0;
    let mut j: usize = 0;
    assert(diags_view(out@) =~= diags_view(base) + done.map_values(|m: Seq<char>| (r.line as int, 0int, r.line as int, end as int, severity, m)));
    assert(all =~= done + fail_msgs(fails, 0, cv, 0, prefix@));
    while i < r.failures.len()
        invariant
            i <= r.failures@.len(),
            j <= r.counterexamples@.len(),
            fails == texts_of(r.failures@),
            cv == ces_view(r.counterexamples@),
            done.len() == i,
            all == done + fail_msgs(fails, i as int, cv, j as int, prefix@),
            diags_view(out@) == diags_view(base) + done.map_values(|m: Seq<char>| (r.line as int, 0int, r.line as int, end as int, severity, m)),
        decreases r.failures@.len() - i,
    {
        let fail = &r.failures[i];
        let k = find_ce(&r.counterexamples, j, fail.as_str());
        let ghost j0 = j as int;
        let mut msg = string_of(prefix);
        push_str(&mut msg, ": ");
        push_str(&mut msg, fail.as_str());
        if k < r.counterexamples.len() {
            push_str(&mut msg, " — counterexample: {");
            push_bindings(&mut msg, &r.counterexamples[k].1);
            push_str(&mut msg, "}");
            j = k + 1;
        } else {
            j = r.counterexamples.len();
        }
        proof {
            assert(fails[i as int] == fail@);
            let kk = next_ce(cv, j0, fails[i as int]);
            assert(kk == k as int);
            if k < r.counterexamples.len() {
                assert(cv[kk].1 == r.counterexamples@[k as int].1@);
            }
            assert(msg@ =~= prefix@ + ": "@ + fails[i as int]
                + if kk < cv.len() { " — counterexample: {"@ + bindings_text(cv[kk].1) + "}"@ } else { Seq::empty() });
            assert(fail_msgs(fails, i as int, cv, j0, prefix@) == seq![msg@] + fail_msgs(fails, i + 1, cv, j as int, prefix@));
        }
        let ghost before = out@;
        out.push(Diagnostic { line: r.line, character: 0, end_line: r.line, end_character: end, severity, message: msg });
        proof {
            let m = msg@;
            assert(all =~= done.push(m) + fail_msgs(fails, i + 1, cv, j as int, prefix@));
            assert(diags_view(out@) =~= diags_view(before).push((r.line as int, 0int, r.line as int, end as int, severity, m)));
            assert(done.push(m).map_values(|m: Seq<char>| (r.line as int, 0int, r.line as int, end as int, severity, m))
                =~= done.map_values(|m: Seq<char>| (r.line as int, 0int, r.line as int, end as int, severity, m)).push((r.line as int, 0int, r.line as int, end as int, severity, m)));
            done = done.push(m);
        }
        i = i + 1;
    }
    assert(fail_msgs(fails, i as int, cv, j as int, prefix@) =~= Seq::<Seq<char>>::empty());
    assert(all =~= done);
}

fn diags_of_reports(lines: &Vec<Vec<char>>, reports: &Vec<FuncReport>) -> (r: Vec<Diagnostic>)
    ensures
        diags_view(r@) == reports_diags(lines_view(lines@), reports@),
{
    let mut out: Vec<Diagnostic> = Vec::new();
    let mut i: usize = 0;
    assert(diags_view(out@) =~= Seq::<DiagV>::empty());
    while i < reports.len()
        invariant
            i <= reports@.len(),
            diags_view(out@) == reports_diags(lines_view(lines@), reports@.take(i as int)),
        decreases reports@.len() - i,
    {
        assert(reports@.take(i + 1).drop_last() =~= reports@.take(i as int));
        report_diagnostics(&mut out, lines, &reports[i]);
        i = i + 1;
    }
    assert(reports@.take(reports@.len() as int) =~= reports@);
    out
}

/// The diagnostics of an analysis of `text`: an error diagnostic for a
/// parse or extraction error; else, for every unverified function, one per
/// failed check on the function's line (informational for ejected
/// functions, whose bodies are trusted).
pub fn diagnostics_for(text: &str, analysis: &Result<Vec<FuncReport>, String>) -> (r: Vec<Diagnostic>)
    ensures
        diags_view(r@) == diagnostics_spec(text@, analysis_view(*analysis)),
{
    let chars = chars_of(text);
    match analysis {
        Err(e) => {
            let (line, character) = error_position(&chars, e.as_str());
            let end = if character < usize::MAX { character + 1 } else { character };
            let mut v: Vec<Diagnostic> = Vec::new();
            v.push(Diagnostic {
                line,
                character,
                end_line: line,
                end_character: end,
                severity: SEVERITY_ERROR,
                message: copy_string(e),
            });
            assert(diags_view(v@) =~= diagnostics_spec(text@, analysis_view(*analysis)));
            v
        },
        Ok(reports) => {
            let lines = text_lines(text);
            diags_of_reports(&lines, reports)
        },
    }
}

/// Diagnostics for a document: parse and extraction errors, and the
/// unsatisfied contracts of its functions.
pub fn diagnostics(text: &str) -> (r: Vec<Diagnostic>)
    ensures
        exists|a: Result<Seq<FuncReport>, Seq<char>>|
            (a matches Ok(rs) ==> analysis_of(text@, rs))
            && #[trigger] diagnostics_spec(text@, a) == diags_view(r@),
        known_analysis(text@) matches Some(a) ==> diagnostics_spec(text@, a) == diags_view(r@),
{
    let a = analyze(text);
    let r = diagnostics_for(text, &a);
    assert(diagnostics_spec(text@, analysis_view(a)) == diags_view(r@));
    r
}


// ---------------------------------------------------------------------------
// Hover
// ---------------------------------------------------------------------------

pub open spec fn bullets(xs: Seq<Seq<char>>) -> Seq<char> {
    concat(Seq::new(xs.len(), |i: int| "- `"@ + xs[i] + "`\n"@))
}

pub open spec fn ce_bullets(cs: Seq<(Seq<char>, Seq<(Seq<char>, int)>)>) -> Seq<char> {
    concat(Seq::new(cs.len(), |i: int| "- `"@ + cs[i].0 + "` => {"@ + bindings_text(cs[i].1) + "}\n"@))
}

pub open spec fn status_spec(r: FuncReport) -> Seq<char> {
    if r.ejected {
        "EJECTED (trusted opaque block; boundary guard enforces the contract)"@
    } else if r.verified {
        "VERIFIED — contract mathematically proven"@
    } else {
        "UNVERIFIED — contract NOT satisfied"@
    }
}

pub open spec fn hover_head(r: FuncReport) -> Seq<char> {
    "### func `"@ + r.name@ + "`\n\n"@
        + "```\nfunc "@ + r.signature@ + "\n```\n\n"@
        + "- **module:** `"@ + r.module@ + "`\n- **target:** `"@ + r.target@ + "`\n- **status:** "@ + status_spec(r) + "\n"@
}

/// A titled list of bullets, or nothing for an empty list.
pub open spec fn section(title: Seq<char>, xs: Seq<Seq<char>>) -> Seq<char> {
    if xs.len() > 0 { title + bullets(xs) } else { Seq::empty() }
}

pub open spec fn failure_section(r: FuncReport) -> Seq<char> {
    if r.failures@.len() > 0 {
        "\n**unsatisfied**\n"@ + bullets(texts_of(r.failures@))
            + (if r.counterexamples@.len() > 0 { "\n**counterexamples**\n"@ + ce_bullets(ces_view(r.counterexamples@)) } else { Seq::empty() })
    } else {
        Seq::empty()
    }
}

/// The hover text of a report: name, signature, module, target, status,
/// then its clauses, failures and counterexamples where it has any.
pub open spec fn hover_text(r: FuncReport) -> Seq<char> {
    hover_head(r)
        + section("\n**requires**\n"@, texts_of(r.requires@))
        + section("\n**ensures**\n"@, texts_of(r.ensures@))
        + failure_section(r)
}

/// The first report from `i` on for a function named `w`.
pub open spec fn report_named(rs: Seq<FuncReport>, w: Seq<char>, i: int) -> Option<int>
    decreases rs.len() - i,
{
    if i < 0 || i >= rs.len() {
        None
    } else if rs[i].name@ == w {
        Some(i)
    } else {
        report_named(rs, w, i + 1)
    }
}

/// The first report from `i` on for a function declared on `line`.
pub open spec fn report_on_line(rs: Seq<FuncReport>, line: int, i: int) -> Option<int>
    decreases rs.len() - i,
{
    if i < 0 || i >= rs.len() {
        None
    } else if rs[i].line == line {
        Some(i)
    } else {
        report_on_line(rs, line, i + 1)
    }
}

/// Hover text at `(line, ch)`: for the function named by the word under the
/// cursor, else for the function declared on that line.
pub open spec fn hover_spec(text: Seq<char>, rs: Seq<FuncReport>, line: int, ch: int) -> Option<Seq<char>> {
    let by_name = match word_at_spec(lines_spec(text), line, ch) {
        Some(w) => report_named(rs, w, 0),
        None => None,
    };
    let idx = match by_name {
        Some(i) => Some(i),
        None => report_on_line(rs, line, 0),
    };
    match idx {
        Some(i) => Some(hover_text(rs[i])),
        None => None,
    }
}

fn push_bullets(out: &mut String, xs: &Vec<String>)
    ensures
        final(out)@ == old(out)@ + bullets(texts_of(xs@)),
{
    let ghost ts = Seq::new(xs@.len(), |i: int| "- `"@ + xs@[i]@ + "`\n"@);
    assert(ts =~= Seq::new(texts_of(xs@).len(), |i: int| "- `"@ + texts_of(xs@)[i] + "`\n"@));
    let ghost base = out@;
    let mut i: usize = 0;
    assert(base =~= base + concat(ts.take(0)));
    while i < xs.len()
        invariant
            i <= xs@.len(),
            ts == Seq::new(xs@.len(), |i: int| "- `"@ + xs@[i]@ + "`\n"@),
            out@ == base + concat(ts.take(i as int)),
        decreases xs@.len() - i,
    {
        proof { crate::prove::lemma_concat_step(ts, i as int); }
        let ghost before = out@;
        push_str(out, "- `");
        push_str(out, xs[i].as_str());
        push_str(out, "`\n");
        assert(out@ =~= before + ts[i as int]);
        i = i + 1;
    }
    assert(ts.take(ts.len() as int) =~= ts);
}

fn push_ce_bullets(out: &mut String, cs: &Vec<(String, Model)>)
    ensures
        final(out)@ == old(out)@ + ce_bullets(ces_view(cs@)),
{
    let ghost cv = ces_view(cs@);
    let ghost ts = Seq::new(cv.len(), |i: int| "- `"@ + cv[i].0 + "` => {"@ + bindings_text(cv[i].1) + "}\n"@);
    let ghost base = out@;
    let mut i: usize = 0;
    assert(base =~= base + concat(ts.take(0)));
    while i < cs.len()
        invariant
            i <= cs@.len(),
            cv == ces_view(cs@),
            ts == Seq::new(cv.len(), |i: int| "- `"@ + cv[i].0 + "` => {"@ + bindings_text(cv[i].1) + "}\n"@),
            out@ == base + concat(ts.take(i as int)),
        decreases cs@.len() - i,
    {
        proof { crate::prove::lemma_concat_step(ts, i as int); }
        let ghost before = out@;
        push_str(out, "- `");
        push_str(out, cs[i].0.as_str());
        push_str(out, "` => {");
        push_bindings(out, &cs[i].1);
        push_str(out, "}\n");
        assert(out@ =~= before + ts[i as int]);
        i = i + 1;
    }
    assert(ts.take(ts.len() as int) =~= ts);
}

fn push_head(md: &mut String, r: &FuncReport)
    ensures
        final(md)@ == old(md)@ + hover_head(*r),
{
    push_str(md, "### func `");
    push_str(md, r.name.as_str());
    push_str(md, "`\n\n");
    push_str(md, "```\nfunc ");
    push_str(md, r.signature.as_str());
    push_str(md, "\n```\n\n");
    push_str(md, "- **module:** `");
    push_str(md, r.module.as_str());
    push_str(md, "`\n- **target:** `");
    push_str(md, r.target);
    push_str(md, "`\n- **status:** ");
    let status = if r.ejected {
        "EJECTED (trusted opaque block; boundary guard enforces the contract)"
    } else if r.verified {
        "VERIFIED — contract mathematically proven"
    } else {
        "UNVERIFIED — contract NOT satisfied"
    };
    push_str(md, status);
    push_str(md, "\n");
    assert(final(md)@ =~= old(md)@ + hover_head(*r));
}

fn push_section(md: &mut String, title: &str, xs: &Vec<String>)
    ensures
        final(md)@ == old(md)@ + section(title@, texts_of(xs@)),
{
    if xs.len() > 0 {
        push_str(md, title);
        push_bullets(md, xs);
        assert(final(md)@ =~= old(md)@ + section(title@, texts_of(xs@)));
    } else {
        assert(final(md)@ =~= old(md)@ + section(title@, texts_of(xs@)));
    }
}

fn push_failure_section(md: &mut String, r: &FuncReport)
    ensures
        final(md)@ == old(md)@ + failure_section(*r),
{
    if r.failures.len() > 0 {
        push_str(md, "\n**unsatisfied**\n");
        push_bullets(md, &r.failures);
        if r.counterexamples.len() > 0 {
            push_str(md, "\n**counterexamples**\n");
            push_ce_bullets(md, &r.counterexamples);
        }
    }
    assert(final(md)@ =~= old(md)@ + failure_section(*r));
}

fn render_hover(r: &FuncReport) -> (s: String)
    ensures
        s@ == hover_text(*r),
{
    let mut md = String::new();
    push_head(&mut md, r);
    push_section(&mut md, "\n**requires**\n", &r.requires);
    push_section(&mut md, "\n**ensures**\n", &r.ensures);
    push_failure_section(&mut md, r);
    assert(md@ =~= hover_text(*r));
    md
}

fn find_named(reports: &Vec<FuncReport>, w: &str) -> (r: Option<usize>)
    ensures
        match r {
            Some(i) => report_named(reports@, w@, 0) == Some(i as int) && i < reports@.len(),
            None => report_named(reports@, w@, 0) is None,
        },
{
    let mut i: usize = 0;
    while i < reports.len()
        invariant
            i <= reports@.len(),
            report_named(reports@, w@, 0) == report_named(reports@, w@, i as int),
        decreases reports@.len() - i,
    {
        if str_eq(reports[i].name.as_str(), w) {
            return Some(i);
        }
        i = i + 1;
    }
    None
}

fn find_on_line(reports: &Vec<FuncReport>, line: usize) -> (r: Option<usize>)
    ensures
        match r {
            Some(i) => report_on_line(reports@, line as int, 0) == Some(i as int) && i < reports@.len(),
            None => report_on_line(reports@, line as int, 0) is None,
        },
{
    let mut i: usize = 0;
    while i < reports.len()
        invariant
            i <= reports@.len(),
            report_on_line(reports@, line as int, 0) == report_on_line(reports@, line as int, i as int),
        decreases reports@.len() - i,
    {
        if reports[i].line == line {
            return Some(i);
        }
        i = i + 1;
    }
    None
}

/// Hover text for `(line, character)` over the reports of an analysis of
/// `text`.
pub fn hover_for(text: &str, reports: &Vec<FuncReport>, line: usize, character: usize) -> (r: Option<String>)
    ensures
        match r {
            Some(s) => hover_spec(text@, reports@, line as int, character as int) == Some(s@),
            None => hover_spec(text@, reports@, line as int, character as int) is None,
        },
{
    let lines = text_lines(text);
    let word = word_at(&lines, line, character);
    let by_name = match &word {
        Some(w) => find_named(reports, w.as_str()),
        None => None,
    };
    let idx = match by_name {
        Some(i) => Some(i),
        None => find_on_line(reports, line),
    };
    match idx {
        Some(i) => Some(render_hover(&reports[i])),
        None => None,
    }
}

/// Markdown hover text for the function named under `(line, character)`,
/// or declared on that line; `None` when there is none or the document does
/// not analyse.
pub fn hover_markdown(text: &str, line: usize, character: usize) -> (r: Option<String>)
    ensures
        exists|a: Result<Seq<FuncReport>, Seq<char>>|
            (a matches Ok(rs) ==> analysis_of(text@, rs))
            && #[trigger] hover_result(text@, a, line as int, character as int) == opt_view(r),
        known_analysis(text@) matches Some(a) ==> hover_result(text@, a, line as int, character as int) == opt_view(r),
{
    let a = analyze(text);
    match &a {
        Ok(reports) => {
            let r = hover_for(text, reports, line, character);
            assert(hover_result(text@, analysis_view(a), line as int, character as int) == opt_view(r));
            r
        },
        Err(_) => {
            assert(hover_result(text@, analysis_view(a), line as int, character as int) == opt_view(None));
            None
        },
    }
}

pub open spec fn opt_view(o: Option<String>) -> Option<Seq<char>> {
    match o {
        Some(s) => Some(s@),
        None => None,
    }
}

/// Hover text over an analysis: none for an analysis error.
pub open spec fn hover_result(text: Seq<char>, a: Result<Seq<FuncReport>, Seq<char>>, line: int, ch: int) -> Option<Seq<char>> {
    match a {
        Ok(rs) => hover_spec(text, rs, line, ch),
        Err(_) => None,
    }
}


// ---------------------------------------------------------------------------
// Quick fixes
// ---------------------------------------------------------------------------

/// A suggested edit: insert `new_text` before 0-based `line`, adding a
/// `requires` clause that excludes one counterexample of a failing check.
#[derive(Debug, Clone, PartialEq, Eq)]
pub struct QuickFix {
    pub title: String,
    pub line: usize,
    pub new_text: String,
}

pub type FixV = (Seq<char>, int, Seq<char>);

pub open spec fn fix_view(q: QuickFix) -> FixV {
    (q.title@, q.line as int, q.new_text@)
}

pub open spec fn model_names(mv: Seq<(Seq<char>, int)>) -> Set<Seq<char>> {
    mv.map_values(|p: (Seq<char>, int)| p.0).to_set()
}

/// `k == v && ...` over the names `ks`, each with its value in the model.
pub open spec fn clause_of(ks: Seq<Seq<char>>, mv: Seq<(Seq<char>, int)>) -> Seq<char> {
    join(Seq::new(ks.len(), |i: int| ks[i] + " == "@ + int_text(crate::solver::coef(mv, ks[i]))), " && "@)
}

/// The fix for a counterexample `mv` of the check `desc` of the function on
/// `line`: its names in sorted order.
pub open spec fn fix_for(desc: Seq<char>, mv: Seq<(Seq<char>, int)>, line: int, q: FixV) -> bool {
    exists|ks: Seq<Seq<char>>|
        crate::codegen::strictly_sorted(ks) && ks.to_set() == model_names(mv)
        && q == #[trigger] fix_text(desc, ks, mv, line)
}

pub open spec fn fix_text(desc: Seq<char>, ks: Seq<Seq<char>>, mv: Seq<(Seq<char>, int)>, line: int) -> FixV {
    (
        "Add `requires` excluding counterexample for `"@ + desc + "`"@,
        if line < usize::MAX { line + 1 } else { line },
        "    requires !("@ + clause_of(ks, mv) + ")\n"@,
    )
}

/// The counterexamples with at least one binding, each with its line.
pub open spec fn ce_sources(cs: Seq<(Seq<char>, Seq<(Seq<char>, int)>)>, line: int) -> Seq<(Seq<char>, Seq<(Seq<char>, int)>, int)>
    decreases cs.len(),
{
    if cs.len() == 0 {
        Seq::empty()
    } else {
        ce_sources(cs.drop_last(), line) + if cs.last().1.len() > 0 { seq![(cs.last().0, cs.last().1, line)] } else { Seq::empty() }
    }
}

/// What the fixes are made from: the counterexamples of functions that are
/// neither verified nor ejected, in order.
pub open spec fn fix_sources(rs: Seq<FuncReport>) -> Seq<(Seq<char>, Seq<(Seq<char>, int)>, int)>
    decreases rs.len(),
{
    if rs.len() == 0 {
        Seq::empty()
    } else {
        let r = rs.last();
        fix_sources(rs.drop_last()) + if r.verified || r.ejected { Seq::empty() } else { ce_sources(ces_view(r.counterexamples@), r.line as int) }
    }
}

proof fn lemma_push_to_set(s: Seq<Seq<char>>, x: Seq<char>)
    ensures
        s.push(x).to_set() == s.to_set().insert(x),
{
    assert forall|y: Seq<char>| s.push(x).to_set().contains(y) <==> s.to_set().insert(x).contains(y) by {
        if s.push(x).contains(y) {
            let k = choose|k: int| 0 <= k < s.push(x).len() && s.push(x)[k] == y;
            if k < s.len() {
                assert(s[k] == y);
            }
        }
        if s.contains(y) {
            let k = choose|k: int| 0 <= k < s.len() && s[k] == y;
            assert(s.push(x)[k] == y);
        }
        if y == x {
            assert(s.push(x)[s.len() as int] == y);
        }
    }
    assert(s.push(x).to_set() =~= s.to_set().insert(x));
}

/// The names a model binds, in ascending order.
pub fn sorted_names(m: &Model) -> (r: Vec<String>)
    ensures
        crate::codegen::strictly_sorted(crate::codegen::texts(r@)),
        crate::codegen::texts(r@).to_set() == model_names(m@),
{
    let bs = m.bindings();
    let ghost mv = m@;
    let ghost names = mv.map_values(|p: (Seq<char>, int)| p.0);
    let mut keys: Vec<String> = Vec::new();
    let mut i: usize = 0;
    assert(crate::codegen::texts(keys@).to_set() =~= names.take(0).to_set());
    while i < bs.len()
        invariant
            i <= bs@.len(),
            crate::ir::terms_view(bs@) == mv,
            names == mv.map_values(|p: (Seq<char>, int)| p.0),
            crate::codegen::strictly_sorted(crate::codegen::texts(keys@)),
            crate::codegen::texts(keys@).to_set() == names.take(i as int).to_set(),
        decreases bs@.len() - i,
    {
        crate::codegen::insert_sorted(&mut keys, bs[i].0.as_str());
        proof {
            assert(names.take(i + 1) =~= names.take(i as int).push(bs@[i as int].0@));
            lemma_push_to_set(names.take(i as int), bs@[i as int].0@);
        }
        i = i + 1;
    }
    assert(names.take(names.len() as int) =~= names);
    keys
}

fn fix_of(desc: &String, m: &Model, line: usize) -> (q: QuickFix)
    ensures
        fix_for(desc@, m@, line as int, fix_view(q)),
{
    let keys = sorted_names(m);
    let ghost ks = crate::codegen::texts(keys@);
    let ghost mv = m@;
    let ghost xs = Seq::new(ks.len(), |i: int| ks[i] + " == "@ + int_text(crate::solver::coef(mv, ks[i])));
    let mut clause = String::new();
    let mut i: usize = 0;
    while i < keys.len()
        invariant
            i <= keys@.len(),
            ks == crate::codegen::texts(keys@),
            mv == m@,
            xs == Seq::new(ks.len(), |i: int| ks[i] + " == "@ + int_text(crate::solver::coef(mv, ks[i]))),
            clause@ == join(xs.take(i as int), " && "@),
        decreases keys@.len() - i,
    {
        proof { lemma_join_step(xs, " && "@, i as int); }
        if i > 0 {
            push_str(&mut clause, " && ");
        }
        push_str(&mut clause, keys[i].as_str());
        push_str(&mut clause, " == ");
        let v: i64 = match m.get(keys[i].as_str()) {
            Some(x) => *x,
            None => 0,
        };
        assert(v as int == crate::solver::coef(mv, ks[i as int]));
        let t = i64_text(v);
        push_str(&mut clause, t.as_str());
        i = i + 1;
    }
    assert(xs.take(xs.len() as int) =~= xs);
    let mut title = string_of("Add `requires` excluding counterexample for `");
    push_str(&mut title, desc.as_str());
    push_str(&mut title, "`");
    let mut new_text = string_of("    requires !(");
    push_str(&mut new_text, clause.as_str());
    push_str(&mut new_text, ")\n");
    let q = QuickFix { title, line: if line < usize::MAX { line + 1 } else { line }, new_text };
    assert(fix_view(q) == fix_text(desc@, ks, mv, line as int));
    q
}

/// Quick fixes from the reports of an analysis: one per counterexample with
/// bindings of a function that is neither verified nor ejected.
pub fn code_actions_for(reports: &Vec<FuncReport>) -> (r: Vec<QuickFix>)
    ensures
        r@.len() == fix_sources(reports@).len(),
        forall|i: int| 0 <= i < r@.len() ==>
            fix_for(fix_sources(reports@)[i].0, fix_sources(reports@)[i].1, fix_sources(reports@)[i].2, #[trigger] fix_view(r@[i])),
{
    let mut out: Vec<QuickFix> = Vec::new();
    let mut i: usize = 0;
    while i < reports.len()
        invariant
            i <= reports@.len(),
            out@.len() == fix_sources(reports@.take(i as int)).len(),
            forall|k: int| 0 <= k < out@.len() ==>
                fix_for(fix_sources(reports@.take(i as int))[k].0, fix_sources(reports@.take(i as int))[k].1, fix_sources(reports@.take(i as int))[k].2, #[trigger] fix_view(out@[k])),
        decreases reports@.len() - i,
    {
        let r = &reports[i];
        assert(reports@.take(i + 1).drop_last() =~= reports@.take(i as int));
        let ghost before = out@;
        let ghost src0 = fix_sources(reports@.take(i as int));
        if !(r.verified || r.ejected) {
            let ghost cv = ces_view(r.counterexamples@);
            let mut j: usize = 0;
            assert(cv.take(0) =~= Seq::<(Seq<char>, Seq<(Seq<char>, int)>)>::empty());
            while j < r.counterexamples.len()
                invariant
                    j <= r.counterexamples@.len(),
                    cv == ces_view(r.counterexamples@),
                    out@.len() == src0.len() + ce_sources(cv.take(j as int), r.line as int).len(),
                    forall|k: int| 0 <= k < src0.len() ==> #[trigger] out@[k] == before[k],
                    before.len() == src0.len(),
                    forall|k: int| 0 <= k < ce_sources(cv.take(j as int), r.line as int).len() ==>
                        fix_for(ce_sources(cv.take(j as int), r.line as int)[k].0, ce_sources(cv.take(j as int), r.line as int)[k].1,
                            ce_sources(cv.take(j as int), r.line as int)[k].2, #[trigger] fix_view(out@[src0.len() + k])),
                decreases r.counterexamples@.len() - j,
            {
                assert(cv.take(j + 1).drop_last() =~= cv.take(j as int));
                let (desc, m) = (&r.counterexamples[j].0, &r.counterexamples[j].1);
                if m.len() > 0 {
                    let q = fix_of(desc, m, r.line);
                    out.push(q);
                }
                j = j + 1;
            }
            assert(cv.take(cv.len() as int) =~= cv);
            proof {
                let src = fix_sources(reports@.take(i + 1));
                let extra = ce_sources(cv, r.line as int);
                assert(src == src0 + extra);
                assert forall|k: int| 0 <= k < out@.len() implies
                    fix_for(src[k].0, src[k].1, src[k].2, #[trigger] fix_view(out@[k])) by {
                    if k < src0.len() {
                        assert(out@[k] == before[k]);
                        assert(src[k] == src0[k]);
                    } else {
                        let kk = k - src0.len();
                        assert(src[k] == extra[kk]);
                        assert(fix_for(extra[kk].0, extra[kk].1, extra[kk].2, fix_view(out@[src0.len() + kk])));
                    }
                }
            }
        } else {
            proof {
                let src = fix_sources(reports@.take(i + 1));
                assert(src =~= src0);
            }
        }
        i = i + 1;
    }
    assert(reports@.take(reports@.len() as int) =~= reports@);
    out
}

/// Quick fixes for a document; none when it does not analyse.
pub fn code_actions(text: &str) -> (r: Vec<QuickFix>)
    ensures
        exists|a: Result<Seq<FuncReport>, Seq<char>>|
            (a matches Ok(rs) ==> analysis_of(text@, rs))
            && #[trigger] fixes_ok(a, r@),
        known_analysis(text@) matches Some(a) ==> fixes_ok(a, r@),
{
    let a = analyze(text);
    match &a {
        Ok(reports) => {
            let r = code_actions_for(reports);
            assert(fixes_ok(analysis_view(a), r@));
            r
        },
        Err(_) => {
            let r: Vec<QuickFix> = Vec::new();
            assert(fixes_ok(analysis_view(a), r@));
            r
        },
    }
}

/// The fixes of an analysis: none for an analysis error, else one per fix
/// source.
pub open spec fn fixes_ok(a: Result<Seq<FuncReport>, Seq<char>>, fixes: Seq<QuickFix>) -> bool {
    match a {
        Err(_) => fixes.len() == 0,
        Ok(rs) => fixes.len() == fix_sources(rs).len()
            && forall|i: int| 0 <= i < fixes.len() ==>
                fix_for(fix_sources(rs)[i].0, fix_sources(rs)[i].1, fix_sources(rs)[i].2, #[trigger] fix_view(fixes[i])),
    }
}

} // verus!
