//! Constraint groups read from JSON, their contradiction report, and the
//! report's human and JSON renderings.
//!
//! Input is JSON describing named constraint *groups*. Each group is a set of
//! linear-arithmetic constraints. A report tells which groups are
//! unsatisfiable on their own, which pairs of groups contradict each other,
//! and whether all groups together are unsatisfiable.
//!
//! The accepted document is either an object with a `"groups"` array or a
//! bare array of groups; a group is
//! `{ "label": .., "constraints": [ { "linear": { "terms": [[name, coeff], ..],
//! "constant": k }, "relation": "<=" }, .. ] }`, with `relation` one of
//! `<=`, `>=`, `==`, `<`, `>`, `!=`.

use vstd::prelude::*;
use crate::ir::{Constraint, Linear, Relation, terms_view};
use crate::extract::{ConV, LinV, con_view, cons_view, rel_of};
use crate::render::bin_op_spec;
use crate::ast::BinOp;
use crate::contradiction::{NamedConstraints, check_contradictions, all_cons, group_cons, rows, pairs_view};
use crate::solver::{unsat_checked, unsat_spec};
use crate::json::{
    JsonValue, JsonV, JsonNumber, JsonError, jv, jv_items, jv_fields, field_of, doc_spec, err_of,
    parse_json, lemma_jv_array, lemma_jv_object,
};
use crate::router::{debug_body, push_debug_str};
use crate::text::{string_of, push_str, copy_string, str_eq};

verus! {

// ---------------------------------------------------------------------------
// Reading groups
// ---------------------------------------------------------------------------

/// A group as plain values: its label and its constraints.
pub type GroupV = (Seq<char>, Seq<ConV>);

pub open spec fn groups_view(gs: Seq<NamedConstraints>) -> Seq<GroupV> {
    gs.map_values(|g: NamedConstraints| (g.label@, group_cons(g)))
}

/// `"label"` as Rust's `Debug` renders a string.
pub open spec fn dq(s: Seq<char>) -> Seq<char> {
    seq!['"'] + debug_body(s) + seq!['"']
}

pub open spec fn relation_of(s: Seq<char>) -> Option<Relation> {
    if s == "<="@ { Some(Relation::Le) }
    else if s == ">="@ { Some(Relation::Ge) }
    else if s == "=="@ { Some(Relation::Eq) }
    else if s == "<"@ { Some(Relation::Lt) }
    else if s == ">"@ { Some(Relation::Gt) }
    else if s == "!="@ { Some(Relation::Ne) }
    else { None }
}

/// A relation written in a constraint group means what the same comparison
/// operator means in a contract: the spelling of each comparison operator
/// reads as the relation that operator lowers to, and every relation that
/// is read back is the spelling of one.
pub proof fn lemma_relation_spelling(op: BinOp, s: Seq<char>)
    ensures
        rel_of(op) is Some ==> relation_of(bin_op_spec(op)) == rel_of(op),
        relation_of(s) matches Some(r) ==> exists|o: BinOp| rel_of(o) == Some(r) && #[trigger] bin_op_spec(o) == s,
{
    reveal_strlit("<=");
    reveal_strlit(">=");
    reveal_strlit("==");
    reveal_strlit("<");
    reveal_strlit(">");
    reveal_strlit("!=");
    assert("<"@.len() == 1 && ">"@.len() == 1 && "<"@[0] == '<' && ">"@[0] == '>');
    assert("<="@.len() == 2 && ">="@.len() == 2 && "=="@.len() == 2 && "!="@.len() == 2);
    assert("<="@[0] == '<' && ">="@[0] == '>' && "=="@[0] == '=' && "!="@[0] == '!');
    assert("<"@ != "<="@ && "<"@ != ">="@ && "<"@ != "=="@);
    assert(">"@ != "<="@ && ">"@ != ">="@ && ">"@ != "=="@ && ">"@ != "<"@);
    assert("!="@ != "<="@ && "!="@ != ">="@ && "!="@ != "=="@ && "!="@ != "<"@ && "!="@ != ">"@);
    assert("=="@ != "<="@ && "=="@ != ">="@ && ">="@ != "<="@);
    if s == "<="@ {
        assert(bin_op_spec(BinOp::Le) == s);
    } else if s == ">="@ {
        assert(bin_op_spec(BinOp::Ge) == s);
    } else if s == "=="@ {
        assert(bin_op_spec(BinOp::Eq) == s);
    } else if s == "<"@ {
        assert(bin_op_spec(BinOp::Lt) == s);
    } else if s == ">"@ {
        assert(bin_op_spec(BinOp::Gt) == s);
    } else if s == "!="@ {
        assert(bin_op_spec(BinOp::Ne) == s);
    }
}

/// An integral number as an `i64`, saturating beyond its range.
pub open spec fn int_of(n: JsonNumber) -> Option<int> {
    match n {
        JsonNumber::Int(k) => Some(k as int),
        JsonNumber::Big(neg) => Some(if neg { i64::MIN as int } else { i64::MAX as int }),
        JsonNumber::Fraction => None,
    }
}

/// One `[variable, coefficient]` term.
pub open spec fn term_spec(t: JsonV) -> Result<(Seq<char>, int), Seq<char>> {
    match t {
        JsonV::Array(pair) => if pair.len() != 2 {
            Err("each term must be a [variable, coefficient] pair"@)
        } else {
            match pair[0] {
                JsonV::Str(name) => match pair[1] {
                    JsonV::Number(n) => match int_of(n) {
                        Some(k) => Ok((name, k)),
                        None => Err("term coefficient must be an integer"@),
                    },
                    _ => Err("term coefficient must be a number"@),
                },
                _ => Err("term variable must be a string"@),
            }
        },
        _ => Err("each term must be a [variable, coefficient] pair"@),
    }
}

/// The terms, in order; the first bad term gives the error.
pub open spec fn terms_spec(ts: Seq<JsonV>) -> Result<Seq<(Seq<char>, int)>, Seq<char>>
    decreases ts.len(),
{
    if ts.len() == 0 {
        Ok(Seq::empty())
    } else {
        match terms_spec(ts.drop_last()) {
            Err(m) => Err(m),
            Ok(acc) => match term_spec(ts.last()) {
                Err(m) => Err(m),
                Ok(t) => Ok(acc.push(t)),
            },
        }
    }
}

/// The `"constant"` of a linear form: absent means 0.
pub open spec fn constant_spec(c: Option<JsonV>) -> Result<int, Seq<char>> {
    match c {
        None => Ok(0),
        Some(JsonV::Number(n)) => match int_of(n) {
            Some(k) => Ok(k),
            None => Err("\"constant\" must be an integer"@),
        },
        Some(_) => Err("\"constant\" must be a number"@),
    }
}

/// One constraint object.
pub open spec fn constraint_spec(v: JsonV) -> Result<ConV, Seq<char>> {
    match v {
        JsonV::Object(fs) => match field_of(fs, "linear"@) {
            None => Err("constraint missing \"linear\""@),
            Some(JsonV::Object(lfs)) => match field_of(lfs, "terms"@) {
                None => Err("\"linear\" missing \"terms\""@),
                Some(JsonV::Array(ts)) => match terms_spec(ts) {
                    Err(m) => Err(m),
                    Ok(terms) => match constant_spec(field_of(lfs, "constant"@)) {
                        Err(m) => Err(m),
                        Ok(k) => match field_of(fs, "relation"@) {
                            Some(JsonV::Str(rs)) => match relation_of(rs) {
                                Some(rel) => Ok(((terms, k), rel)),
                                None => Err("unknown relation "@ + dq(rs)),
                            },
                            _ => Err("constraint missing string \"relation\""@),
                        },
                    },
                },
                Some(_) => Err("\"terms\" must be an array"@),
            },
            Some(_) => Err("\"linear\" must be an object"@),
        },
        _ => Err("constraint must be an object"@),
    }
}

/// The constraints of the group labelled `label`, in order.
pub open spec fn constraints_spec(cs: Seq<JsonV>, label: Seq<char>) -> Result<Seq<ConV>, Seq<char>>
    decreases cs.len(),
{
    if cs.len() == 0 {
        Ok(Seq::empty())
    } else {
        match constraints_spec(cs.drop_last(), label) {
            Err(m) => Err(m),
            Ok(acc) => match constraint_spec(cs.last()) {
                Err(m) => Err("group "@ + dq(label) + ": "@ + m),
                Ok(c) => Ok(acc.push(c)),
            },
        }
    }
}

/// One group object.
pub open spec fn group_spec(g: JsonV) -> Result<GroupV, Seq<char>> {
    match g {
        JsonV::Object(fs) => match field_of(fs, "label"@) {
            Some(JsonV::Str(label)) => match field_of(fs, "constraints"@) {
                Some(JsonV::Array(cs)) => match constraints_spec(cs, label) {
                    Ok(c) => Ok((label, c)),
                    Err(m) => Err(m),
                },
                _ => Err("group "@ + dq(label) + " is missing a \"constraints\" array"@),
            },
            _ => Err("group is missing a string \"label\""@),
        },
        _ => Err("each group must be an object"@),
    }
}

/// The groups, in order.
pub open spec fn group_list_spec(gs: Seq<JsonV>) -> Result<Seq<GroupV>, Seq<char>>
    decreases gs.len(),
{
    if gs.len() == 0 {
        Ok(Seq::empty())
    } else {
        match group_list_spec(gs.drop_last()) {
            Err(m) => Err(m),
            Ok(acc) => match group_spec(gs.last()) {
                Err(m) => Err(m),
                Ok(g) => Ok(acc.push(g)),
            },
        }
    }
}

/// The groups of a whole document value.
pub open spec fn top_spec(v: JsonV) -> Result<Seq<GroupV>, Seq<char>> {
    match v {
        JsonV::Array(a) => group_list_spec(a),
        JsonV::Object(fs) => match field_of(fs, "groups"@) {
            Some(JsonV::Array(g)) => group_list_spec(g),
            Some(_) => Err("\"groups\" must be an array of group objects"@),
            None => Err("top-level object must contain a \"groups\" array"@),
        },
        _ => Err("top-level JSON must be an array of groups or an object with \"groups\""@),
    }
}

/// The groups a JSON text describes; schema errors are reported at offset 0.
pub open spec fn parse_groups_spec(src: Seq<char>) -> Result<Seq<GroupV>, (int, Seq<char>)> {
    match doc_spec(src) {
        Err(e) => Err(e),
        Ok(v) => match top_spec(v) {
            Ok(g) => Ok(g),
            Err(m) => Err((0, m)),
        },
    }
}

fn msg(s: &str) -> (r: String)
    ensures
        r@ == s@,
{
    string_of(s)
}

fn parse_term(t: &JsonValue) -> (r: Result<(String, i64), String>)
    ensures
        match r {
            Ok((n, k)) => term_spec(jv(*t)) == Ok::<(Seq<char>, int), Seq<char>>((n@, k as int)),
            Err(m) => term_spec(jv(*t)) == Err::<(Seq<char>, int), Seq<char>>(m@),
        },
{
    let pair = match t {
        JsonValue::Array(p) => p,
        _ => return Err(msg("each term must be a [variable, coefficient] pair")),
    };
    proof { lemma_jv_array(pair@, *pair); }
    if pair.len() != 2 {
        return Err(msg("each term must be a [variable, coefficient] pair"));
    }
    let name = match &pair[0] {
        JsonValue::Str(s) => copy_string(s),
        _ => return Err(msg("term variable must be a string")),
    };
    let coeff: i64 = match &pair[1] {
        JsonValue::Number(n) => match n {
            JsonNumber::Int(k) => *k,
            JsonNumber::Big(neg) => if *neg { i64::MIN } else { i64::MAX },
            JsonNumber::Fraction => return Err(msg("term coefficient must be an integer")),
        },
        _ => return Err(msg("term coefficient must be a number")),
    };
    Ok((name, coeff))
}

fn parse_constraint(v: &JsonValue) -> (r: Result<Constraint, String>)
    ensures
        match r {
            Ok(c) => constraint_spec(jv(*v)) == Ok::<ConV, Seq<char>>(con_view(c)),
            Err(m) => constraint_spec(jv(*v)) == Err::<ConV, Seq<char>>(m@),
        },
{
    let fs = match v {
        JsonValue::Object(fs) => fs,
        _ => return Err(msg("constraint must be an object")),
    };
    proof { lemma_jv_object(fs@, *fs); }
    let linear = match v.get("linear") {
        Some(l) => l,
        None => return Err(msg("constraint missing \"linear\"")),
    };
    let lfs = match linear {
        JsonValue::Object(lfs) => lfs,
        _ => return Err(msg("\"linear\" must be an object")),
    };
    proof { lemma_jv_object(lfs@, *lfs); }
    let terms = match linear.get("terms") {
        Some(t) => t,
        None => return Err(msg("\"linear\" missing \"terms\"")),
    };
    let arr = match terms {
        JsonValue::Array(a) => a,
        _ => return Err(msg("\"terms\" must be an array")),
    };
    proof { lemma_jv_array(arr@, *arr); }
    let ghost ts = jv_items(arr@);
    assert(jv(*v) == JsonV::Object(jv_fields(fs@)));
    assert(field_of(jv_fields(fs@), "linear"@) == Some(jv(*linear)));
    assert(jv(*linear) == JsonV::Object(jv_fields(lfs@)));
    assert(field_of(jv_fields(lfs@), "terms"@) == Some(jv(*terms)));
    assert(jv(*terms) == JsonV::Array(ts));
    let mut out: Vec<(String, i64)> = Vec::new();
    let mut i: usize = 0;
    assert(ts.take(0) =~= Seq::<JsonV>::empty());
    assert(terms_view(out@) =~= Seq::<(Seq<char>, int)>::empty());
    while i < arr.len()
        invariant
            i <= arr@.len(),
            ts == jv_items(arr@),
            jv(*v) == JsonV::Object(jv_fields(fs@)),
            field_of(jv_fields(fs@), "linear"@) == Some(jv(*linear)),
            jv(*linear) == JsonV::Object(jv_fields(lfs@)),
            field_of(jv_fields(lfs@), "terms"@) == Some(JsonV::Array(ts)),
            terms_spec(ts.take(i as int)) == Ok::<Seq<(Seq<char>, int)>, Seq<char>>(terms_view(out@)),
        decreases arr@.len() - i,
    {
        assert(ts.take(i + 1).drop_last() =~= ts.take(i as int));
        assert(ts.take(i + 1).last() == jv(arr@[i as int]));
        match parse_term(&arr[i]) {
            Ok(t) => {
                let ghost before = out@;
                out.push(t);
                assert(terms_view(out@) =~= terms_view(before).push((out@.last().0@, out@.last().1 as int)));
            },
            Err(m) => {
                proof { lemma_terms_prefix_err(ts, i as int + 1); }
                return Err(m);
            },
        }
        i = i + 1;
    }
    assert(ts.take(arr@.len() as int) =~= ts);
    let constant: i64 = match linear.get("constant") {
        None => 0,
        Some(JsonValue::Number(n)) => match n {
            JsonNumber::Int(k) => *k,
            JsonNumber::Big(neg) => if *neg { i64::MIN } else { i64::MAX },
            JsonNumber::Fraction => return Err(msg("\"constant\" must be an integer")),
        },
        Some(_) => return Err(msg("\"constant\" must be a number")),
    };
    let rs = match v.get("relation") {
        Some(JsonValue::Str(s)) => s,
        _ => return Err(msg("constraint missing string \"relation\"")),
    };
    let relation = if str_eq(rs.as_str(), "<=") {
        Relation::Le
    } else if str_eq(rs.as_str(), ">=") {
        Relation::Ge
    } else if str_eq(rs.as_str(), "==") {
        Relation::Eq
    } else if str_eq(rs.as_str(), "<") {
        Relation::Lt
    } else if str_eq(rs.as_str(), ">") {
        Relation::Gt
    } else if str_eq(rs.as_str(), "!=") {
        Relation::Ne
    } else {
        let mut m = msg("unknown relation ");
        push_debug_str(&mut m, rs.as_str());
        assert(m@ =~= "unknown relation "@ + dq(rs@));
        return Err(m);
    };
    Ok(Constraint(Linear { terms: out, constant }, relation))
}

/// An error in a prefix of the terms is the error of the whole list.
proof fn lemma_terms_prefix_err(ts: Seq<JsonV>, k: int)
    requires
        0 <= k <= ts.len(),
        terms_spec(ts.take(k)) is Err,
    ensures
        terms_spec(ts) == terms_spec(ts.take(k)),
    decreases ts.len() - k,
{
    if k < ts.len() {
        assert(ts.take(k + 1).drop_last() =~= ts.take(k));
        lemma_terms_prefix_err(ts, k + 1);
    } else {
        assert(ts.take(k) =~= ts);
    }
}

proof fn lemma_constraints_prefix_err(cs: Seq<JsonV>, label: Seq<char>, k: int)
    requires
        0 <= k <= cs.len(),
        constraints_spec(cs.take(k), label) is Err,
    ensures
        constraints_spec(cs, label) == constraints_spec(cs.take(k), label),
    decreases cs.len() - k,
{
    if k < cs.len() {
        assert(cs.take(k + 1).drop_last() =~= cs.take(k));
        lemma_constraints_prefix_err(cs, label, k + 1);
    } else {
        assert(cs.take(k) =~= cs);
    }
}

proof fn lemma_groups_prefix_err(gs: Seq<JsonV>, k: int)
    requires
        0 <= k <= gs.len(),
        group_list_spec(gs.take(k)) is Err,
    ensures
        group_list_spec(gs) == group_list_spec(gs.take(k)),
    decreases gs.len() - k,
{
    if k < gs.len() {
        assert(gs.take(k + 1).drop_last() =~= gs.take(k));
        lemma_groups_prefix_err(gs, k + 1);
    } else {
        assert(gs.take(k) =~= gs);
    }
}

fn parse_group(g: &JsonValue) -> (r: Result<NamedConstraints, String>)
    ensures
        match r {
            Ok(n) => group_spec(jv(*g)) == Ok::<GroupV, Seq<char>>((n.label@, group_cons(n))),
            Err(m) => group_spec(jv(*g)) == Err::<GroupV, Seq<char>>(m@),
        },
{
    let fs = match g {
        JsonValue::Object(fs) => fs,
        _ => return Err(msg("each group must be an object")),
    };
    proof { lemma_jv_object(fs@, *fs); }
    let label = match g.get("label") {
        Some(JsonValue::Str(s)) => s,
        _ => return Err(msg("group is missing a string \"label\"")),
    };
    let cfield = g.get("constraints");
    let arr = match cfield {
        Some(JsonValue::Array(a)) => a,
        _ => {
            let mut m = msg("group ");
            push_debug_str(&mut m, label.as_str());
            push_str(&mut m, " is missing a \"constraints\" array");
            assert(m@ =~= "group "@ + dq(label@) + " is missing a \"constraints\" array"@);
            return Err(m);
        },
    };
    proof { lemma_jv_array(arr@, *arr); }
    let ghost cs = jv_items(arr@);
    assert(jv(*g) == JsonV::Object(jv_fields(fs@)));
    assert(field_of(jv_fields(fs@), "constraints"@) == Some(JsonV::Array(cs)));
    let mut out: Vec<Constraint> = Vec::new();
    let mut i: usize = 0;
    assert(cs.take(0) =~= Seq::<JsonV>::empty());
    assert(cons_view(out@) =~= Seq::<ConV>::empty());
    while i < arr.len()
        invariant
            i <= arr@.len(),
            cs == jv_items(arr@),
            jv(*g) == JsonV::Object(jv_fields(fs@)),
            field_of(jv_fields(fs@), "label"@) == Some(JsonV::Str(label@)),
            field_of(jv_fields(fs@), "constraints"@) == Some(JsonV::Array(cs)),
            constraints_spec(cs.take(i as int), label@) == Ok::<Seq<ConV>, Seq<char>>(cons_view(out@)),
        decreases arr@.len() - i,
    {
        assert(cs.take(i + 1).drop_last() =~= cs.take(i as int));
        assert(cs.take(i + 1).last() == jv(arr@[i as int]));
        match parse_constraint(&arr[i]) {
            Ok(c) => {
                let ghost before = out@;
                out.push(c);
                assert(cons_view(out@) =~= cons_view(before).push(con_view(out@.last())));
            },
            Err(m0) => {
                let mut m = msg("group ");
                push_debug_str(&mut m, label.as_str());
                push_str(&mut m, ": ");
                push_str(&mut m, m0.as_str());
                assert(m@ =~= "group "@ + dq(label@) + ": "@ + m0@);
                proof { lemma_constraints_prefix_err(cs, label@, i as int + 1); }
                return Err(m);
            },
        }
        i = i + 1;
    }
    assert(cs.take(arr@.len() as int) =~= cs);
    Ok(NamedConstraints { label: copy_string(label), constraints: out })
}

/// Read named constraint groups from JSON text: a top-level object with a
/// `"groups"` array, or a bare array of groups.
pub fn parse_groups(src: &str) -> (r: Result<Vec<NamedConstraints>, JsonError>)
    ensures
        match r {
            Ok(gs) => parse_groups_spec(src@) == Ok::<Seq<GroupV>, (int, Seq<char>)>(groups_view(gs@)),
            Err(e) => parse_groups_spec(src@) == Err::<Seq<GroupV>, (int, Seq<char>)>(err_of(e)),
        },
{
    let v = parse_json(src)?;
    let arr = match &v {
        JsonValue::Array(a) => a,
        JsonValue::Object(fs) => {
            proof { lemma_jv_object(fs@, *fs); }
            match v.get("groups") {
                Some(JsonValue::Array(g)) => g,
                Some(_) => return Err(JsonError::new(0, msg("\"groups\" must be an array of group objects"))),
                None => return Err(JsonError::new(0, msg("top-level object must contain a \"groups\" array"))),
            }
        },
        _ => return Err(JsonError::new(0, msg("top-level JSON must be an array of groups or an object with \"groups\""))),
    };
    proof { lemma_jv_array(arr@, *arr); }
    let ghost gs = jv_items(arr@);
    assert(top_spec(jv(v)) == group_list_spec(gs));
    let mut out: Vec<NamedConstraints> = Vec::new();
    let mut i: usize = 0;
    assert(gs.take(0) =~= Seq::<JsonV>::empty());
    assert(groups_view(out@) =~= Seq::<GroupV>::empty());
    while i < arr.len()
        invariant
            i <= arr@.len(),
            gs == jv_items(arr@),
            doc_spec(src@) == Ok::<JsonV, (int, Seq<char>)>(jv(v)),
            top_spec(jv(v)) == group_list_spec(gs),
            group_list_spec(gs.take(i as int)) == Ok::<Seq<GroupV>, Seq<char>>(groups_view(out@)),
        decreases arr@.len() - i,
    {
        assert(gs.take(i + 1).drop_last() =~= gs.take(i as int));
        assert(gs.take(i + 1).last() == jv(arr@[i as int]));
        match parse_group(&arr[i]) {
            Ok(g) => {
                let ghost before = out@;
                out.push(g);
                assert(groups_view(out@) =~= groups_view(before).push((out@.last().label@, group_cons(out@.last()))));
            },
            Err(m) => {
                proof { lemma_groups_prefix_err(gs, i as int + 1); }
                return Err(JsonError::new(0, m));
            },
        }
        i = i + 1;
    }
    assert(gs.take(arr@.len() as int) =~= gs);
    Ok(out)
}


// ---------------------------------------------------------------------------
// The report
// ---------------------------------------------------------------------------

/// The result for one named group.
#[derive(Debug, Clone, PartialEq, Eq)]
pub struct GroupResult {
    pub label: String,
    /// Whether the group's own constraints are unsatisfiable; `None` when the
    /// solver could not decide.
    pub self_unsat: Option<bool>,
}

/// A machine-facing report of the contradiction check.
#[derive(Debug, Clone, PartialEq, Eq)]
pub struct ProveReport {
    /// Whether all constraints of all groups together are unsatisfiable;
    /// `None` when the solver could not decide.
    pub overall_unsat: Option<bool>,
    /// Per-group results, in input order.
    pub groups: Vec<GroupResult>,
    /// Label pairs whose groups contradict each other.
    pub contradictory_pairs: Vec<(String, String)>,
    /// Notes about the input that did not stop the check.
    pub warnings: Vec<String>,
}

pub open spec fn label_pairs(ps: Seq<(String, String)>) -> Seq<(Seq<char>, Seq<char>)> {
    ps.map_values(|p: (String, String)| (p.0@, p.1@))
}

/// Build a report: each group checked on its own, and the joint and
/// pairwise checks across groups.
pub fn build_report(groups: &[NamedConstraints]) -> (r: ProveReport)
    ensures
        r.overall_unsat == unsat_spec(all_cons(groups@)),
        r.groups@.len() == groups@.len(),
        forall|i: int| 0 <= i < groups@.len() ==> {
            &&& (#[trigger] r.groups@[i]).label@ == groups@[i].label@
            &&& r.groups@[i].self_unsat == unsat_spec(group_cons(groups@[i]))
        },
        label_pairs(r.contradictory_pairs@) == rows(groups@, groups@.len() as int),
        r.warnings@.len() == 0,
{
    let mut results: Vec<GroupResult> = Vec::new();
    let mut i: usize = 0;
    while i < groups.len()
        invariant
            i <= groups@.len(),
            results@.len() == i,
            forall|j: int| 0 <= j < i ==> {
                &&& (#[trigger] results@[j]).label@ == groups@[j].label@
                &&& results@[j].self_unsat == unsat_spec(group_cons(groups@[j]))
            },
        decreases groups@.len() - i,
    {
        let self_unsat = unsat_checked(groups[i].constraints.as_slice());
        results.push(GroupResult { label: copy_string(&groups[i].label), self_unsat });
        i = i + 1;
    }
    let contradiction = check_contradictions(groups);
    let mut pairs: Vec<(String, String)> = Vec::new();
    let mut k: usize = 0;
    while k < contradiction.pairs.len()
        invariant
            k <= contradiction.pairs@.len(),
            label_pairs(pairs@) == pairs_view(contradiction.pairs@.take(k as int)),
        decreases contradiction.pairs@.len() - k,
    {
        let p = &contradiction.pairs[k];
        let ghost before = pairs@;
        pairs.push((copy_string(&p.a), copy_string(&p.b)));
        assert(label_pairs(pairs@) =~= label_pairs(before).push((p.a@, p.b@)));
        assert(pairs_view(contradiction.pairs@.take(k + 1)) =~= pairs_view(contradiction.pairs@.take(k as int)).push((p.a@, p.b@)));
        k = k + 1;
    }
    assert(contradiction.pairs@.take(contradiction.pairs@.len() as int) =~= contradiction.pairs@);
    ProveReport {
        overall_unsat: contradiction.overall_unsat,
        groups: results,
        contradictory_pairs: pairs,
        warnings: Vec::new(),
    }
}

// ---------------------------------------------------------------------------
// Rendering
// ---------------------------------------------------------------------------

/// The concatenation of a list of texts.
pub open spec fn concat(xs: Seq<Seq<char>>) -> Seq<char>
    decreases xs.len(),
{
    if xs.len() == 0 {
        Seq::empty()
    } else {
        concat(xs.drop_last()) + xs.last()
    }
}

pub open spec fn overall_line(o: Option<bool>) -> Seq<char> {
    match o {
        Some(true) => "overall: UNSATISFIABLE (the combined groups can never all hold)\n"@,
        Some(false) => "overall: satisfiable\n"@,
        None => "overall: UNDECIDED (bounds too large for the FM solver to decide)\n"@,
    }
}

pub open spec fn status_text(o: Option<bool>) -> Seq<char> {
    match o {
        Some(true) => "self-contradictory"@,
        Some(false) => "consistent (on its own)"@,
        None => "undecided (bounds too large)"@,
    }
}

pub open spec fn warning_lines(ws: Seq<String>) -> Seq<Seq<char>> {
    Seq::new(ws.len(), |i: int| "warning: "@ + ws[i]@ + "\n"@)
}

pub open spec fn group_lines(gs: Seq<GroupResult>) -> Seq<Seq<char>> {
    Seq::new(gs.len(), |i: int| "  group "@ + gs[i].label@ + ": "@ + status_text(gs[i].self_unsat) + "\n"@)
}

pub open spec fn pair_lines(ps: Seq<(String, String)>) -> Seq<Seq<char>> {
    Seq::new(ps.len(), |i: int| "    "@ + ps[i].0@ + " <-> "@ + ps[i].1@ + "\n"@)
}

/// The human-readable rendering of a report.
pub open spec fn human_spec(r: ProveReport) -> Seq<char> {
    concat(warning_lines(r.warnings@)) + overall_line(r.overall_unsat) + concat(group_lines(r.groups@))
        + if r.contradictory_pairs@.len() == 0 {
            "  pairwise contradictions: none\n"@
        } else {
            "  pairwise contradictions:\n"@ + concat(pair_lines(r.contradictory_pairs@))
        }
}

/// `c` inside a JSON string literal.
pub open spec fn json_char(c: char) -> Seq<char> {
    if c == '"' { seq!['\\', '"'] }
    else if c == '\\' { seq!['\\', '\\'] }
    else if c == '\n' { seq!['\\', 'n'] }
    else if c == '\r' { seq!['\\', 'r'] }
    else if c == '\t' { seq!['\\', 't'] }
    else { seq![c] }
}

pub open spec fn json_body(s: Seq<char>) -> Seq<char>
    decreases s.len(),
{
    if s.len() == 0 {
        Seq::empty()
    } else {
        json_body(s.drop_last()) + json_char(s.last())
    }
}

/// A JSON string literal holding `s`.
pub open spec fn json_str_spec(s: Seq<char>) -> Seq<char> {
    seq!['"'] + json_body(s) + seq!['"']
}

pub open spec fn json_bool_opt(o: Option<bool>) -> Seq<char> {
    match o {
        Some(true) => "true"@,
        Some(false) => "false"@,
        None => "null"@,
    }
}

/// `",\n"` between items, `"\n"` after the last.
pub open spec fn item_end(i: int, n: int) -> Seq<char> {
    if i + 1 < n { ",\n"@ } else { "\n"@ }
}

pub open spec fn group_entry(g: GroupResult, i: int, n: int) -> Seq<char> {
    "    {\n"@ + "      \"label\": "@ + json_str_spec(g.label@) + ",\n"@
        + "      \"self_unsat\": "@ + json_bool_opt(g.self_unsat) + "\n"@
        + "    }"@ + item_end(i, n)
}

pub open spec fn group_entries(gs: Seq<GroupResult>) -> Seq<Seq<char>> {
    Seq::new(gs.len(), |i: int| group_entry(gs[i], i, gs.len() as int))
}

pub open spec fn pair_entry(a: Seq<char>, b: Seq<char>, i: int, n: int) -> Seq<char> {
    "    ["@ + json_str_spec(a) + ", "@ + json_str_spec(b) + "]"@ + item_end(i, n)
}

pub open spec fn pair_entries(ps: Seq<(String, String)>) -> Seq<Seq<char>> {
    Seq::new(ps.len(), |i: int| pair_entry(ps[i].0@, ps[i].1@, i, ps.len() as int))
}

fn push_item_end(out: &mut String, i: usize, n: usize)
    ensures
        final(out)@ == old(out)@ + item_end(i as int, n as int),
{
    if i < n && i + 1 < n {
        push_str(out, ",\n");
    } else {
        push_str(out, "\n");
    }
}

fn push_group_entry(out: &mut String, g: &GroupResult, i: usize, n: usize)
    ensures
        final(out)@ == old(out)@ + group_entry(*g, i as int, n as int),
{
    push_str(out, "    {\n");
    push_str(out, "      \"label\": ");
    push_json_str(out, g.label.as_str());
    push_str(out, ",\n");
    push_str(out, "      \"self_unsat\": ");
    push_bool_opt(out, g.self_unsat);
    push_str(out, "\n");
    push_str(out, "    }");
    push_item_end(out, i, n);
    assert(final(out)@ =~= old(out)@ + group_entry(*g, i as int, n as int));
}

fn push_pair_entry(out: &mut String, a: &str, b: &str, i: usize, n: usize)
    ensures
        final(out)@ == old(out)@ + pair_entry(a@, b@, i as int, n as int),
{
    push_str(out, "    [");
    push_json_str(out, a);
    push_str(out, ", ");
    push_json_str(out, b);
    push_str(out, "]");
    push_item_end(out, i, n);
    assert(final(out)@ =~= old(out)@ + pair_entry(a@, b@, i as int, n as int));
}

/// The JSON rendering of a report.
pub open spec fn json_spec(r: ProveReport) -> Seq<char> {
    "{\n"@ + "  \"overall_unsat\": "@ + json_bool_opt(r.overall_unsat) + ",\n"@
        + "  \"groups\": [\n"@ + concat(group_entries(r.groups@)) + "  ],\n"@
        + "  \"contradictory_pairs\": [\n"@ + concat(pair_entries(r.contradictory_pairs@)) + "  ]\n"@
        + "}\n"@
}

pub proof fn lemma_concat_step(xs: Seq<Seq<char>>, i: int)
    requires
        0 <= i < xs.len(),
    ensures
        concat(xs.take(i + 1)) == concat(xs.take(i)) + xs[i],
{
    assert(xs.take(i + 1).drop_last() =~= xs.take(i));
}

fn push_json_str(out: &mut String, s: &str)
    ensures
        final(out)@ == old(out)@ + json_str_spec(s@),
{
    let cs = crate::text::chars_of(s);
    crate::text::push_char(out, '"');
    let ghost base = out@;
    let mut i: usize = 0;
    while i < cs.len()
        invariant
            i <= cs@.len(),
            cs@ == s@,
            out@ == base + json_body(cs@.take(i as int)),
        decreases cs@.len() - i,
    {
        let c = cs[i];
        assert(cs@.take(i + 1).drop_last() == cs@.take(i as int));
        let ghost before = out@;
        if c == '"' {
            push_str(out, "\\\"");
            proof { reveal_strlit("\\\""); }
        } else if c == '\\' {
            push_str(out, "\\\\");
            proof { reveal_strlit("\\\\"); }
        } else if c == '\n' {
            push_str(out, "\\n");
            proof { reveal_strlit("\\n"); }
        } else if c == '\r' {
            push_str(out, "\\r");
            proof { reveal_strlit("\\r"); }
        } else if c == '\t' {
            push_str(out, "\\t");
            proof { reveal_strlit("\\t"); }
        } else {
            crate::text::push_char(out, c);
        }
        assert(out@ =~= before + json_char(c));
        assert(out@ =~= base + json_body(cs@.take(i + 1)));
        i = i + 1;
    }
    assert(cs@.take(cs@.len() as int) =~= cs@);
    crate::text::push_char(out, '"');
    assert(out@ =~= old(out)@ + json_str_spec(s@));
}

fn push_bool_opt(out: &mut String, o: Option<bool>)
    ensures
        final(out)@ == old(out)@ + json_bool_opt(o),
{
    match o {
        Some(true) => push_str(out, "true"),
        Some(false) => push_str(out, "false"),
        None => push_str(out, "null"),
    }
}

impl ProveReport {
    /// Render the report as human-readable text.
    pub fn format_human(&self) -> (r: String)
        ensures
            r@ == human_spec(*self),
    {
        let mut out = String::new();
        let ghost ws = warning_lines(self.warnings@);
        let mut i: usize = 0;
        assert(ws.take(0) =~= Seq::<Seq<char>>::empty());
        while i < self.warnings.len()
            invariant
                i <= self.warnings@.len(),
                ws == warning_lines(self.warnings@),
                out@ == concat(ws.take(i as int)),
            decreases self.warnings@.len() - i,
        {
            let ghost before = out@;
            push_str(&mut out, "warning: ");
            push_str(&mut out, self.warnings[i].as_str());
            push_str(&mut out, "\n");
            proof { lemma_concat_step(ws, i as int); }
            assert(out@ =~= before + ws[i as int]);
            i = i + 1;
        }
        assert(ws.take(ws.len() as int) =~= ws);
        let ghost p1 = out@;
        match self.overall_unsat {
            Some(true) => push_str(&mut out, "overall: UNSATISFIABLE (the combined groups can never all hold)\n"),
            Some(false) => push_str(&mut out, "overall: satisfiable\n"),
            None => push_str(&mut out, "overall: UNDECIDED (bounds too large for the FM solver to decide)\n"),
        }
        let ghost base = out@;
        assert(base == p1 + overall_line(self.overall_unsat));
        let ghost gl = group_lines(self.groups@);
        let mut j: usize = 0;
        assert(gl.take(0) =~= Seq::<Seq<char>>::empty());
        assert(base =~= base + concat(gl.take(0)));
        while j < self.groups.len()
            invariant
                j <= self.groups@.len(),
                gl == group_lines(self.groups@),
                out@ == base + concat(gl.take(j as int)),
            decreases self.groups@.len() - j,
        {
            let g = &self.groups[j];
            let ghost before = out@;
            push_str(&mut out, "  group ");
            push_str(&mut out, g.label.as_str());
            push_str(&mut out, ": ");
            match g.self_unsat {
                Some(true) => push_str(&mut out, "self-contradictory"),
                Some(false) => push_str(&mut out, "consistent (on its own)"),
                None => push_str(&mut out, "undecided (bounds too large)"),
            }
            push_str(&mut out, "\n");
            proof { lemma_concat_step(gl, j as int); }
            assert(out@ =~= before + gl[j as int]);
            j = j + 1;
        }
        assert(gl.take(gl.len() as int) =~= gl);
        let ghost base2 = out@;
        if self.contradictory_pairs.len() == 0 {
            push_str(&mut out, "  pairwise contradictions: none\n");
        } else {
            push_str(&mut out, "  pairwise contradictions:\n");
            let ghost base3 = out@;
            let ghost pl = pair_lines(self.contradictory_pairs@);
            let mut k: usize = 0;
            assert(pl.take(0) =~= Seq::<Seq<char>>::empty());
            assert(base3 =~= base3 + concat(pl.take(0)));
            while k < self.contradictory_pairs.len()
                invariant
                    k <= self.contradictory_pairs@.len(),
                    pl == pair_lines(self.contradictory_pairs@),
                    out@ == base3 + concat(pl.take(k as int)),
                decreases self.contradictory_pairs@.len() - k,
            {
                let ghost before = out@;
                push_str(&mut out, "    ");
                push_str(&mut out, self.contradictory_pairs[k].0.as_str());
                push_str(&mut out, " <-> ");
                push_str(&mut out, self.contradictory_pairs[k].1.as_str());
                push_str(&mut out, "\n");
                proof { lemma_concat_step(pl, k as int); }
                assert(out@ =~= before + pl[k as int]);
                k = k + 1;
            }
            assert(pl.take(pl.len() as int) =~= pl);
            assert(out@ =~= base2 + ("  pairwise contradictions:\n"@ + concat(pl)));
        }
        assert(out@ =~= human_spec(*self));
        out
    }

    /// Render the report as JSON.
    pub fn format_json(&self) -> (r: String)
        ensures
            r@ == json_spec(*self),
    {
        let mut out = String::new();
        push_str(&mut out, "{\n");
        push_str(&mut out, "  \"overall_unsat\": ");
        push_bool_opt(&mut out, self.overall_unsat);
        push_str(&mut out, ",\n");
        push_str(&mut out, "  \"groups\": [\n");
        let ghost base = out@;
        let ghost ge = group_entries(self.groups@);
        let n = self.groups.len();
        let mut i: usize = 0;
        assert(ge.take(0) =~= Seq::<Seq<char>>::empty());
        assert(base =~= base + concat(ge.take(0)));
        while i < n
            invariant
                n == self.groups@.len(),
                i <= n,
                ge == group_entries(self.groups@),
                out@ == base + concat(ge.take(i as int)),
            decreases n - i,
        {
            let ghost before = out@;
            push_group_entry(&mut out, &self.groups[i], i, n);
            proof { lemma_concat_step(ge, i as int); }
            assert(out@ =~= before + ge[i as int]);
            i = i + 1;
        }
        assert(ge.take(ge.len() as int) =~= ge);
        push_str(&mut out, "  ],\n");
        push_str(&mut out, "  \"contradictory_pairs\": [\n");
        let ghost base2 = out@;
        let ghost pe = pair_entries(self.contradictory_pairs@);
        let m = self.contradictory_pairs.len();
        let mut k: usize = 0;
        assert(pe.take(0) =~= Seq::<Seq<char>>::empty());
        assert(base2 =~= base2 + concat(pe.take(0)));
        while k < m
            invariant
                m == self.contradictory_pairs@.len(),
                k <= m,
                pe == pair_entries(self.contradictory_pairs@),
                out@ == base2 + concat(pe.take(k as int)),
            decreases m - k,
        {
            let ghost before = out@;
            push_pair_entry(&mut out, self.contradictory_pairs[k].0.as_str(), self.contradictory_pairs[k].1.as_str(), k, m);
            proof { lemma_concat_step(pe, k as int); }
            assert(out@ =~= before + pe[k as int]);
            k = k + 1;
        }
        assert(pe.take(pe.len() as int) =~= pe);
        push_str(&mut out, "  ]\n");
        push_str(&mut out, "}\n");
        assert(out@ =~= json_spec(*self));
        out
    }
}

} // verus!
