//! Memory budgets and the outcome of a memory-bound proof.
//!
//! For every memory scope, the allocation sizes that belong to it are summed
//! and compared against the scope's budget. [`MemoryLimits`] holds those
//! budgets; [`ProofResult`] is what the proof concludes.

use vstd::prelude::*;
use crate::ir::{terms_view, find_term};
use crate::solver::{Model, set_spec, set_binding};
use crate::text::string_of;

verus! {

/// The outcome of a memory-bound proof.
#[derive(Debug, Clone)]
pub enum ProofResult {
    /// Every scope's allocation total is provably within its budget for all
    /// values of the symbolic dimensions.
    Valid,
    /// A scope can exceed its budget; `model` binds the symbolic dimensions
    /// to values under which it does.
    Counterexample {
        scope: String,
        model: Model,
        total_bytes: i64,
        limit_bytes: i64,
    },
    /// The engine could not decide; `reason` says what would be needed.
    Inconclusive { reason: String },
}

/// A `scope_begin`/`scope_end` pair: the scope's lifetime name and how many
/// begin and end markers name it.
#[derive(Debug, Clone, PartialEq, Eq)]
pub struct ScopeInfo {
    pub lifetime: String,
    pub begins: usize,
    pub ends: usize,
}

/// Per-scope and default memory budgets, in bytes.
#[derive(Debug, Clone)]
pub struct MemoryLimits {
    /// Budget of every scope without an entry in `per_scope`.
    pub default: i64,
    /// Explicit budgets by scope lifetime name.
    pub per_scope: Vec<(String, i64)>,
}

impl MemoryLimits {
    /// The explicit budgets as `(scope, bytes)` pairs.
    pub open spec fn scopes(&self) -> Seq<(Seq<char>, int)> {
        terms_view(self.per_scope@)
    }

    /// The budget that applies to `scope`: its explicit one, else the default.
    pub open spec fn limit_spec(&self, scope: Seq<char>) -> int {
        match find_term(self.scopes(), scope) {
            Some(i) => self.scopes()[i].1,
            None => self.default as int,
        }
    }

    /// Every scope effectively unbounded (`i64::MAX`).
    pub fn unbounded() -> (r: MemoryLimits)
        ensures
            r.default == i64::MAX,
            r.scopes() == Seq::<(Seq<char>, int)>::empty(),
    {
        let r = MemoryLimits { default: i64::MAX, per_scope: Vec::new() };
        assert(r.scopes() =~= Seq::<(Seq<char>, int)>::empty());
        r
    }

    /// One budget for every scope.
    pub fn with_default(bytes: i64) -> (r: MemoryLimits)
        ensures
            r.default == bytes,
            r.scopes() == Seq::<(Seq<char>, int)>::empty(),
    {
        let r = MemoryLimits { default: bytes, per_scope: Vec::new() };
        assert(r.scopes() =~= Seq::<(Seq<char>, int)>::empty());
        r
    }

    /// Set, or override, the budget of one named scope.
    pub fn with_scope(self, name: &str, bytes: i64) -> (r: MemoryLimits)
        ensures
            r.default == self.default,
            r.scopes() == set_spec(self.scopes(), name@, bytes as int),
            r.limit_spec(name@) == bytes,
    {
        let mut per_scope = self.per_scope;
        let n = string_of(name);
        set_binding(&mut per_scope, &n, bytes);
        let r = MemoryLimits { default: self.default, per_scope };
        proof {
            crate::ir::lemma_find_term(r.scopes(), name@);
            lemma_set_finds(self.scopes(), name@, bytes as int);
        }
        r
    }

    /// The budget that applies to `scope`.
    pub fn limit_for(&self, scope: &str) -> (r: i64)
        ensures
            r == self.limit_spec(scope@),
    {
        let mut i: usize = 0;
        while i < self.per_scope.len()
            invariant
                i <= self.per_scope@.len(),
                find_term(self.scopes().take(i as int), scope@) is None,
            decreases self.per_scope@.len() - i,
        {
            assert(self.scopes().take(i + 1).drop_last() == self.scopes().take(i as int));
            if crate::text::str_eq(self.per_scope[i].0.as_str(), scope) {
                proof {
                    assert(find_term(self.scopes().take(i + 1), scope@) == Some(i as int));
                    crate::ir::lemma_find_prefix(self.scopes(), i as int + 1, scope@);
                }
                return self.per_scope[i].1;
            }
            i = i + 1;
        }
        assert(self.scopes().take(self.scopes().len() as int) == self.scopes());
        self.default
    }
}

impl Default for MemoryLimits {
    fn default() -> (r: MemoryLimits)
        ensures
            r.default == i64::MAX,
            r.scopes() == Seq::<(Seq<char>, int)>::empty(),
    {
        MemoryLimits::unbounded()
    }
}

/// After binding `n` to `x`, looking `n` up finds `x`.
proof fn lemma_set_finds(mv: Seq<(Seq<char>, int)>, n: Seq<char>, x: int)
    ensures
        find_term(set_spec(mv, n, x), n) matches Some(i) && set_spec(mv, n, x)[i].1 == x,
{
    crate::ir::lemma_find_term(mv, n);
    match find_term(mv, n) {
        Some(i) => {
            lemma_find_update(mv, i, n, x);
        },
        None => {
            lemma_find_push_absent(mv, n, x);
        },
    }
}

proof fn lemma_find_update(mv: Seq<(Seq<char>, int)>, i: int, n: Seq<char>, x: int)
    requires
        find_term(mv, n) == Some(i),
    ensures
        find_term(mv.update(i, (n, x)), n) == Some(i),
    decreases mv.len(),
{
    crate::ir::lemma_find_term(mv, n);
    let u = mv.update(i, (n, x));
    if i == mv.len() - 1 {
        assert(u.drop_last() == mv.drop_last());
    } else {
        assert(u.drop_last() == mv.drop_last().update(i, (n, x)));
        lemma_find_update(mv.drop_last(), i, n, x);
    }
}

proof fn lemma_find_push_absent(mv: Seq<(Seq<char>, int)>, n: Seq<char>, x: int)
    requires
        find_term(mv, n) is None,
    ensures
        find_term(mv.push((n, x)), n) == Some(mv.len() as int),
{
    assert(mv.push((n, x)).drop_last() == mv);
}

} // verus!
