//! Context router: decides, from `@boundary(...)` architectural metadata,
//! which backend a module is compiled to (Rust for CPU-bound, zero-allocation,
//! cryptographic and real-time paths; Go for network I/O, high-concurrency and
//! distributed paths; Python for ML workloads), reads the storage class from
//! `@state(...)`, and flags unsafe combinations.

use vstd::prelude::*;
use crate::ast::{Arg, Attribute, Literal};
use crate::text::{push_str, push_char, str_eq, string_of};

verus! {

/// The compilation backend a module or function is routed to.
#[derive(Debug, Clone, Copy, PartialEq, Eq, Structural)]
pub enum Target {
    Rust,
    Go,
    /// Python (with optional JAX/NumPy annotations) for ML/PINN workloads.
    Python,
}

pub open spec fn target_text(t: Target) -> Seq<char> {
    match t {
        Target::Rust => "rust"@,
        Target::Go => "go"@,
        Target::Python => "python"@,
    }
}

impl Target {
    /// Returns the target as a lowercase string.
    pub fn as_str(&self) -> (r: &'static str)
        ensures
            r@ == target_text(*self),
    {
        match self {
            Target::Rust => "rust",
            Target::Go => "go",
            Target::Python => "python",
        }
    }
}

/// A routing warning emitted when architectural flags imply a potentially
/// unsafe target combination.
#[derive(Debug, Clone)]
pub struct RoutingDiagnostic {
    pub kind: DiagnosticKind,
    pub module: String,
    pub message: String,
}

/// The kind of routing conflict detected.
#[derive(Debug, Clone, Copy, PartialEq, Eq, Structural)]
pub enum DiagnosticKind {
    /// A `real_time` module was routed to Go, whose GC is non-deterministic.
    RealTimeGoConflict,
    /// A `zero_allocation` module was routed to Go, which allocates via GC.
    ZeroAllocGoConflict,
    /// A `real_time` module was routed to Python, whose runtime is not
    /// deterministic.
    RealTimePythonConflict,
    /// A `zero_allocation` module was routed to Python, which allocates
    /// implicitly.
    ZeroAllocPythonConflict,
    /// A `@boundary(...)` flag that no backend recognises.
    UnrecognizedBoundaryFlag,
    /// A `@state(...)` value other than `persistent` / `ephemeral`.
    UnrecognizedStateValue,
}

/// The storage class for a module's data structures, derived from
/// `@state(persistent)` or `@state(ephemeral)`.
#[derive(Debug, Clone, Copy, PartialEq, Eq, Structural)]
pub enum StorageClass {
    /// Database-backed / serializable structs.
    Persistent,
    /// Stack-only / transient structs (default).
    Ephemeral,
}

impl Default for StorageClass {
    fn default() -> (r: Self)
        ensures
            r == StorageClass::Ephemeral,
    {
        StorageClass::Ephemeral
    }
}

/// The routing decision for a module or function.
#[derive(Debug, Clone)]
pub struct Route {
    pub target: Target,
    /// The storage class derived from `@state(...)`.
    pub storage: StorageClass,
    /// Human-readable justification.
    pub reason: String,
}

impl Route {
    /// Returns `true` when the target is [`Target::Rust`].
    pub fn is_rust(&self) -> (r: bool)
        ensures
            r == (self.target == Target::Rust),
    {
        match self.target {
            Target::Rust => true,
            _ => false,
        }
    }
}

// ---------------------------------------------------------------------------
// Specification
// ---------------------------------------------------------------------------

pub open spec fn is_rust_flag(f: Seq<char>) -> bool {
    f == "cpu_bound"@ || f == "zero_allocation"@ || f == "crypto"@ || f == "real_time"@
}

pub open spec fn is_go_flag(f: Seq<char>) -> bool {
    f == "network_io"@ || f == "high_concurrency"@ || f == "distributed"@ || f == "high_latency"@
}

pub open spec fn is_python_flag(f: Seq<char>) -> bool {
    f == "ml_training"@ || f == "python"@ || f == "jax"@
}

/// Flag arguments, in order.
pub open spec fn arg_flags(args: Seq<Arg>) -> Seq<Seq<char>>
    decreases args.len(),
{
    if args.len() == 0 {
        Seq::empty()
    } else {
        let rest = arg_flags(args.drop_last());
        match args.last() {
            Arg::Flag(f) => rest.push(f@),
            _ => rest,
        }
    }
}

/// Flags of every `@boundary(...)` attribute, in order.
pub open spec fn boundary_flags_spec(attrs: Seq<Attribute>) -> Seq<Seq<char>>
    decreases attrs.len(),
{
    if attrs.len() == 0 {
        Seq::empty()
    } else {
        let rest = boundary_flags_spec(attrs.drop_last());
        if attrs.last().name@ == "boundary"@ {
            rest + arg_flags(attrs.last().args@)
        } else {
            rest
        }
    }
}

pub open spec fn python_hits(attrs: Seq<Attribute>) -> Seq<Seq<char>> {
    boundary_flags_spec(attrs).filter(|f: Seq<char>| is_python_flag(f))
}

pub open spec fn go_hits(attrs: Seq<Attribute>) -> Seq<Seq<char>> {
    boundary_flags_spec(attrs).filter(|f: Seq<char>| !is_python_flag(f) && is_go_flag(f))
}

pub open spec fn rust_hits(attrs: Seq<Attribute>) -> Seq<Seq<char>> {
    boundary_flags_spec(attrs).filter(|f: Seq<char>| !is_python_flag(f) && !is_go_flag(f) && is_rust_flag(f))
}

/// Python beats Go, Go beats Rust; without recognised flags: Rust.
pub open spec fn target_spec(attrs: Seq<Attribute>) -> Target {
    if python_hits(attrs).len() > 0 {
        Target::Python
    } else if go_hits(attrs).len() > 0 {
        Target::Go
    } else {
        Target::Rust
    }
}

/// The storage class named by one `@state` argument, if any.
pub open spec fn storage_of_arg(a: Arg) -> Option<StorageClass> {
    match a {
        Arg::Flag(f) => if f@ == "persistent"@ {
            Some(StorageClass::Persistent)
        } else if f@ == "ephemeral"@ {
            Some(StorageClass::Ephemeral)
        } else {
            None
        },
        Arg::Kv(k, Literal::Ident(v)) => if k@ == "class"@ && v@ == "persistent"@ {
            Some(StorageClass::Persistent)
        } else if k@ == "class"@ && v@ == "ephemeral"@ {
            Some(StorageClass::Ephemeral)
        } else {
            None
        },
        _ => None,
    }
}

/// The first storage class named by an argument of `args`.
pub open spec fn storage_in_args(args: Seq<Arg>) -> Option<StorageClass>
    decreases args.len(),
{
    if args.len() == 0 {
        None
    } else if storage_of_arg(args[0]) is Some {
        storage_of_arg(args[0])
    } else {
        storage_in_args(args.drop_first())
    }
}

/// The first storage class named inside a `@state(...)` attribute;
/// `Ephemeral` when there is none.
pub open spec fn storage_spec(attrs: Seq<Attribute>) -> StorageClass
    decreases attrs.len(),
{
    if attrs.len() == 0 {
        StorageClass::Ephemeral
    } else if attrs[0].name@ == "state"@ && storage_in_args(attrs[0].args@) is Some {
        storage_in_args(attrs[0].args@).unwrap()
    } else {
        storage_spec(attrs.drop_first())
    }
}

/// `c` as it appears inside a Rust `Debug` string literal.
pub open spec fn debug_char(c: char) -> Seq<char> {
    if c == '"' { seq!['\\', '"'] }
    else if c == '\\' { seq!['\\', '\\'] }
    else if c == '\n' { seq!['\\', 'n'] }
    else if c == '\r' { seq!['\\', 'r'] }
    else if c == '\t' { seq!['\\', 't'] }
    else if c == '\0' { seq!['\\', '0'] }
    else { seq![c] }
}

pub open spec fn debug_body(s: Seq<char>) -> Seq<char>
    decreases s.len(),
{
    if s.len() == 0 {
        Seq::empty()
    } else {
        debug_body(s.drop_last()) + debug_char(s.last())
    }
}

/// A list of strings rendered as `["a", "b"]`.
pub open spec fn debug_list(v: Seq<Seq<char>>) -> Seq<char> {
    "["@ + debug_items(v) + "]"@
}

pub open spec fn debug_items(v: Seq<Seq<char>>) -> Seq<char>
    decreases v.len(),
{
    if v.len() == 0 {
        Seq::empty()
    } else if v.len() == 1 {
        seq!['"'] + debug_body(v[0]) + seq!['"']
    } else {
        debug_items(v.drop_last()) + ", "@ + seq!['"'] + debug_body(v.last()) + seq!['"']
    }
}

pub open spec fn reason_spec(attrs: Seq<Attribute>) -> Seq<char> {
    if python_hits(attrs).len() > 0 {
        "boundary flags "@ + debug_list(python_hits(attrs)) + " routed to Python backend"@
    } else if go_hits(attrs).len() > 0 {
        "boundary flags "@ + debug_list(go_hits(attrs)) + " routed to Go backend"@
    } else if rust_hits(attrs).len() > 0 {
        "boundary flags "@ + debug_list(rust_hits(attrs)) + " routed to Rust backend"@
    } else {
        "no explicit boundary flags; defaulting to Rust compute backend"@
    }
}

pub open spec fn real_time_message(module: Seq<char>) -> Seq<char> {
    "module `"@ + module + "` has `real_time` flag but is routed to Go (GC is non-deterministic; FADEC/PREEMPT_RT targets must use Rust; see ARCHITECTURE.md § Go GC Determinism)"@
}

pub open spec fn zero_alloc_message(module: Seq<char>) -> Seq<char> {
    "module `"@ + module + "` has `zero_allocation` flag but is routed to Go (Go allocates via GC; zero-allocation guarantees cannot be upheld; see ARCHITECTURE.md § Go GC Determinism)"@
}

pub open spec fn real_time_python_message(module: Seq<char>) -> Seq<char> {
    "module `"@ + module + "` has `real_time` flag but is routed to Python (the Python runtime is non-deterministic; real-time targets must use Rust)"@
}

pub open spec fn zero_alloc_python_message(module: Seq<char>) -> Seq<char> {
    "module `"@ + module + "` has `zero_allocation` flag but is routed to Python (Python allocates implicitly; zero-allocation guarantees cannot be upheld)"@
}

pub open spec fn unknown_flag_message(module: Seq<char>, flag: Seq<char>) -> Seq<char> {
    "module `"@ + module + "` has unrecognized boundary flag `"@ + flag + "`; it does not influence routing"@
}

pub open spec fn unknown_state_message(module: Seq<char>, value: Seq<char>) -> Seq<char> {
    "module `"@ + module + "` has unrecognized @state value `"@ + value + "`; expected `persistent` or `ephemeral`"@
}

/// Boundary flags no backend recognises, in order.
pub open spec fn unknown_flags(attrs: Seq<Attribute>) -> Seq<Seq<char>> {
    boundary_flags_spec(attrs).filter(|f: Seq<char>| !is_python_flag(f) && !is_go_flag(f) && !is_rust_flag(f))
}

/// The storage value an argument of `@state(...)` spells but that is not
/// recognised, if any.
pub open spec fn bad_state_value(a: Arg) -> Option<Seq<char>> {
    match a {
        Arg::Flag(f) => if f@ == "persistent"@ || f@ == "ephemeral"@ { None } else { Some(f@) },
        Arg::Kv(k, Literal::Ident(v)) => if k@ == "class"@ && !(v@ == "persistent"@ || v@ == "ephemeral"@) {
            Some(v@)
        } else {
            None
        },
        _ => None,
    }
}

pub open spec fn bad_state_in_args(args: Seq<Arg>) -> Seq<Seq<char>>
    decreases args.len(),
{
    if args.len() == 0 {
        Seq::empty()
    } else {
        let rest = bad_state_in_args(args.drop_last());
        match bad_state_value(args.last()) {
            Some(v) => rest.push(v),
            None => rest,
        }
    }
}

/// Unrecognised values of every `@state(...)` attribute, in order.
pub open spec fn bad_state_values(attrs: Seq<Attribute>) -> Seq<Seq<char>>
    decreases attrs.len(),
{
    if attrs.len() == 0 {
        Seq::empty()
    } else {
        let rest = bad_state_values(attrs.drop_last());
        if attrs.last().name@ == "state"@ {
            rest + bad_state_in_args(attrs.last().args@)
        } else {
            rest
        }
    }
}

/// The conflict diagnostics (kind, message) of a routing decision.
pub open spec fn conflict_diags(attrs: Seq<Attribute>, module: Seq<char>) -> Seq<(DiagnosticKind, Seq<char>)> {
    let rt = rust_hits(attrs).contains("real_time"@);
    let za = rust_hits(attrs).contains("zero_allocation"@);
    if target_spec(attrs) == Target::Go {
        (if rt { seq![(DiagnosticKind::RealTimeGoConflict, real_time_message(module))] } else { Seq::empty() })
        + (if za { seq![(DiagnosticKind::ZeroAllocGoConflict, zero_alloc_message(module))] } else { Seq::empty() })
    } else if target_spec(attrs) == Target::Python {
        (if rt { seq![(DiagnosticKind::RealTimePythonConflict, real_time_python_message(module))] } else { Seq::empty() })
        + (if za { seq![(DiagnosticKind::ZeroAllocPythonConflict, zero_alloc_python_message(module))] } else { Seq::empty() })
    } else {
        Seq::empty()
    }
}

/// Every diagnostic (kind, message) a routing decision raises, in order:
/// target conflicts, then unrecognised boundary flags, then unrecognised
/// `@state` values.
pub open spec fn diagnostics_spec(attrs: Seq<Attribute>, module: Seq<char>) -> Seq<(DiagnosticKind, Seq<char>)> {
    conflict_diags(attrs, module)
        + unknown_flags(attrs).map_values(|f: Seq<char>| (DiagnosticKind::UnrecognizedBoundaryFlag, unknown_flag_message(module, f)))
        + bad_state_values(attrs).map_values(|v: Seq<char>| (DiagnosticKind::UnrecognizedStateValue, unknown_state_message(module, v)))
}

pub open spec fn diag_view(d: RoutingDiagnostic) -> (DiagnosticKind, Seq<char>) {
    (d.kind, d.message@)
}

pub open spec fn strings_view(v: Seq<String>) -> Seq<Seq<char>> {
    v.map_values(|s: String| s@)
}

// ---------------------------------------------------------------------------
// Implementation
// ---------------------------------------------------------------------------

fn is_rust_flag_exec(f: &str) -> (r: bool)
    ensures
        r == is_rust_flag(f@),
{
    str_eq(f, "cpu_bound") || str_eq(f, "zero_allocation") || str_eq(f, "crypto") || str_eq(f, "real_time")
}

fn is_go_flag_exec(f: &str) -> (r: bool)
    ensures
        r == is_go_flag(f@),
{
    str_eq(f, "network_io") || str_eq(f, "high_concurrency") || str_eq(f, "distributed") || str_eq(f, "high_latency")
}

fn is_python_flag_exec(f: &str) -> (r: bool)
    ensures
        r == is_python_flag(f@),
{
    str_eq(f, "ml_training") || str_eq(f, "python") || str_eq(f, "jax")
}

fn boundary_flags(attrs: &[Attribute]) -> (r: Vec<String>)
    ensures
        strings_view(r@) == boundary_flags_spec(attrs@),
{
    let mut flags: Vec<String> = Vec::new();
    let mut i: usize = 0;
    while i < attrs.len()
        invariant
            i <= attrs@.len(),
            strings_view(flags@) == boundary_flags_spec(attrs@.take(i as int)),
        decreases attrs@.len() - i,
    {
        let attr = &attrs[i];
        assert(attrs@.take(i + 1).drop_last() == attrs@.take(i as int));
        assert(attrs@.take(i + 1).last() == attrs@[i as int]);
        if str_eq(attr.name.as_str(), "boundary") {
            let ghost before = strings_view(flags@);
            let mut j: usize = 0;
            while j < attr.args.len()
                invariant
                    j <= attr.args@.len(),
                    strings_view(flags@) == before + arg_flags(attr.args@.take(j as int)),
                decreases attr.args@.len() - j,
            {
                assert(attr.args@.take(j + 1).drop_last() == attr.args@.take(j as int));
                let ghost prev = flags@;
                match &attr.args[j] {
                    Arg::Flag(f) => {
                        flags.push(f.clone());
                        assert(strings_view(flags@) == strings_view(prev).push(f@));
                    },
                    _ => {},
                }
                j = j + 1;
            }
            assert(attr.args@.take(attr.args@.len() as int) == attr.args@);
        }
        i = i + 1;
    }
    assert(attrs@.take(attrs@.len() as int) == attrs@);
    flags
}

fn storage_of(a: &Arg) -> (r: Option<StorageClass>)
    ensures
        r == storage_of_arg(*a),
{
    match a {
        Arg::Flag(f) => {
            if str_eq(f.as_str(), "persistent") {
                Some(StorageClass::Persistent)
            } else if str_eq(f.as_str(), "ephemeral") {
                Some(StorageClass::Ephemeral)
            } else {
                None
            }
        },
        Arg::Kv(k, Literal::Ident(v)) => {
            if str_eq(k.as_str(), "class") && str_eq(v.as_str(), "persistent") {
                Some(StorageClass::Persistent)
            } else if str_eq(k.as_str(), "class") && str_eq(v.as_str(), "ephemeral") {
                Some(StorageClass::Ephemeral)
            } else {
                None
            }
        },
        _ => None,
    }
}

/// Parse `@state(persistent)` or `@state(ephemeral)` from module attributes.
fn parse_storage_class(attrs: &[Attribute]) -> (r: StorageClass)
    ensures
        r == storage_spec(attrs@),
{
    let mut i: usize = 0;
    assert(attrs@.skip(0) == attrs@);
    while i < attrs.len()
        invariant
            i <= attrs@.len(),
            storage_spec(attrs@) == storage_spec(attrs@.skip(i as int)),
        decreases attrs@.len() - i,
    {
        assert(attrs@.skip(i as int).drop_first() == attrs@.skip(i + 1));
        let attr = &attrs[i];
        if str_eq(attr.name.as_str(), "state") {
            let mut j: usize = 0;
            assert(attr.args@.skip(0) == attr.args@);
            while j < attr.args.len()
                invariant
                    j <= attr.args@.len(),
                    i < attrs@.len(),
                    *attr == attrs@[i as int],
                    attr.name@ == "state"@,
                    storage_spec(attrs@) == storage_spec(attrs@.skip(i as int)),
                    storage_in_args(attr.args@) == storage_in_args(attr.args@.skip(j as int)),
                decreases attr.args@.len() - j,
            {
                assert(attr.args@.skip(j as int).drop_first() == attr.args@.skip(j + 1));
                if let Some(c) = storage_of(&attr.args[j]) {
                    assert(attr.args@.skip(j as int)[0] == attr.args@[j as int]);
                    assert(storage_in_args(attr.args@) == Some(c));
                    assert(attrs@.skip(i as int)[0] == attrs@[i as int]);
                    return c;
                }
                j = j + 1;
            }
            assert(storage_in_args(attr.args@) is None);
            assert(attrs@.skip(i as int)[0] == attrs@[i as int]);
        }
        i = i + 1;
    }
    StorageClass::Ephemeral
}

pub(crate) fn push_debug_str(out: &mut String, s: &str)
    ensures
        final(out)@ == old(out)@ + seq!['"'] + debug_body(s@) + seq!['"'],
{
    let cs = crate::text::chars_of(s);
    push_char(out, '"');
    let ghost base = out@;
    let mut i: usize = 0;
    while i < cs.len()
        invariant
            i <= cs@.len(),
            cs@ == s@,
            out@ == base + debug_body(cs@.take(i as int)),
        decreases cs@.len() - i,
    {
        let c = cs[i];
        assert(cs@.take(i + 1).drop_last() == cs@.take(i as int));
        if c == '"' {
            push_str(out, "\\\"");
        } else if c == '\\' {
            push_str(out, "\\\\");
        } else if c == '\n' {
            push_str(out, "\\n");
        } else if c == '\r' {
            push_str(out, "\\r");
        } else if c == '\t' {
            push_str(out, "\\t");
        } else if c == '\0' {
            push_str(out, "\\0");
        } else {
            push_char(out, c);
        }
        proof {
            reveal_strlit("\\\"");
            reveal_strlit("\\\\");
            reveal_strlit("\\n");
            reveal_strlit("\\r");
            reveal_strlit("\\t");
            reveal_strlit("\\0");
        }
        assert(out@ == base + debug_body(cs@.take(i + 1)));
        i = i + 1;
    }
    assert(cs@.take(cs@.len() as int) == cs@);
    push_char(out, '"');
}

fn debug_vec(v: &Vec<String>) -> (r: String)
    ensures
        r@ == debug_list(strings_view(v@)),
{
    let mut out = string_of("[");
    let mut i: usize = 0;
    while i < v.len()
        invariant
            i <= v@.len(),
            out@ == "["@ + debug_items(strings_view(v@.take(i as int))),
        decreases v@.len() - i,
    {
        let ghost prev = out@;
        assert(strings_view(v@.take(i + 1)).drop_last() == strings_view(v@.take(i as int)));
        assert(strings_view(v@.take(i + 1)).last() == v@[i as int]@);
        if i > 0 {
            push_str(&mut out, ", ");
        }
        push_debug_str(&mut out, v[i].as_str());
        assert(out@ == "["@ + debug_items(strings_view(v@.take(i + 1))));
        i = i + 1;
    }
    assert(v@.take(v@.len() as int) == v@);
    push_str(&mut out, "]");
    out
}

fn contains_str(v: &Vec<String>, s: &str) -> (r: bool)
    ensures
        r == strings_view(v@).contains(s@),
{
    let mut i: usize = 0;
    while i < v.len()
        invariant
            i <= v@.len(),
            forall|j: int| 0 <= j < i ==> v@[j]@ != s@,
        decreases v@.len() - i,
    {
        if str_eq(v[i].as_str(), s) {
            assert(strings_view(v@)[i as int] == s@);
            return true;
        }
        i = i + 1;
    }
    false
}

fn make_message(prefix: &str, module_name: &str, suffix: &str) -> (r: String)
    ensures
        r@ == prefix@ + module_name@ + suffix@,
{
    let mut s = string_of(prefix);
    push_str(&mut s, module_name);
    push_str(&mut s, suffix);
    s
}

fn bad_state(a: &Arg) -> (r: Option<String>)
    ensures
        r matches Some(v) ==> bad_state_value(*a) == Some(v@),
        r is None ==> bad_state_value(*a) is None,
{
    match a {
        Arg::Flag(f) => {
            if str_eq(f.as_str(), "persistent") || str_eq(f.as_str(), "ephemeral") {
                None
            } else {
                Some(f.clone())
            }
        },
        Arg::Kv(k, Literal::Ident(v)) => {
            if str_eq(k.as_str(), "class") && !(str_eq(v.as_str(), "persistent") || str_eq(v.as_str(), "ephemeral")) {
                Some(v.clone())
            } else {
                None
            }
        },
        _ => None,
    }
}

/// Unrecognised `@state(...)` values, in order.
fn collect_bad_state(attrs: &[Attribute]) -> (r: Vec<String>)
    ensures
        strings_view(r@) == bad_state_values(attrs@),
{
    let mut out: Vec<String> = Vec::new();
    let mut i: usize = 0;
    while i < attrs.len()
        invariant
            i <= attrs@.len(),
            strings_view(out@) == bad_state_values(attrs@.take(i as int)),
        decreases attrs@.len() - i,
    {
        let attr = &attrs[i];
        assert(attrs@.take(i + 1).drop_last() == attrs@.take(i as int));
        assert(attrs@.take(i + 1).last() == attrs@[i as int]);
        if str_eq(attr.name.as_str(), "state") {
            let ghost before = strings_view(out@);
            let mut j: usize = 0;
            while j < attr.args.len()
                invariant
                    j <= attr.args@.len(),
                    strings_view(out@) == before + bad_state_in_args(attr.args@.take(j as int)),
                decreases attr.args@.len() - j,
            {
                assert(attr.args@.take(j + 1).drop_last() == attr.args@.take(j as int));
                let ghost prev = out@;
                match bad_state(&attr.args[j]) {
                    Some(v) => {
                        out.push(v);
                        assert(strings_view(out@) == strings_view(prev).push(out@.last()@));
                    },
                    None => {},
                }
                j = j + 1;
            }
            assert(attr.args@.take(attr.args@.len() as int) == attr.args@);
        }
        i = i + 1;
    }
    assert(attrs@.take(attrs@.len() as int) == attrs@);
    out
}

fn push_diag(diags: &mut Vec<RoutingDiagnostic>, kind: DiagnosticKind, module_name: &str, message: String)
    ensures
        final(diags)@ == old(diags)@.push(RoutingDiagnostic { kind, module: final(diags)@.last().module, message }),
        final(diags)@.last().module@ == module_name@,
{
    diags.push(RoutingDiagnostic { kind, module: string_of(module_name), message });
}

/// Route a module from its `@boundary` attributes and emit diagnostics for
/// potentially unsafe target combinations and unrecognised metadata.
/// Diagnostics are non-fatal warnings.
pub fn route_checked(attrs: &[Attribute], module_name: &str) -> (r: (Route, Vec<RoutingDiagnostic>))
    ensures
        r.0.target == target_spec(attrs@),
        r.0.storage == storage_spec(attrs@),
        r.0.reason@ == reason_spec(attrs@),
        r.1@.map_values(|d: RoutingDiagnostic| diag_view(d)) == diagnostics_spec(attrs@, module_name@),
        forall|k: int| 0 <= k < r.1@.len() ==> #[trigger] r.1@[k].module@ == module_name@,
{
    let flags = boundary_flags(attrs);

    // Parse @state(...) for storage class.
    let storage = parse_storage_class(attrs);

    let ghost all = boundary_flags_spec(attrs@);
    let mut go_hits_v: Vec<String> = Vec::new();
    let mut rust_hits_v: Vec<String> = Vec::new();
    let mut python_hits_v: Vec<String> = Vec::new();
    let mut unknown_v: Vec<String> = Vec::new();
    let mut i: usize = 0;
    while i < flags.len()
        invariant
            i <= flags@.len(),
            strings_view(flags@) == all,
            strings_view(python_hits_v@) == all.take(i as int).filter(|f: Seq<char>| is_python_flag(f)),
            strings_view(go_hits_v@) == all.take(i as int).filter(|f: Seq<char>| !is_python_flag(f) && is_go_flag(f)),
            strings_view(rust_hits_v@) == all.take(i as int).filter(|f: Seq<char>| !is_python_flag(f) && !is_go_flag(f) && is_rust_flag(f)),
            strings_view(unknown_v@) == all.take(i as int).filter(|f: Seq<char>| !is_python_flag(f) && !is_go_flag(f) && !is_rust_flag(f)),
        decreases flags@.len() - i,
    {
        let f = &flags[i];
        assert(all.take(i + 1).drop_last() == all.take(i as int));
        assert(all.take(i + 1).last() == f@);
        reveal_with_fuel(Seq::filter, 1);
        let ghost p0 = python_hits_v@;
        let ghost g0 = go_hits_v@;
        let ghost r0 = rust_hits_v@;
        let ghost u0 = unknown_v@;
        if is_python_flag_exec(f.as_str()) {
            python_hits_v.push(f.clone());
            assert(strings_view(python_hits_v@) == strings_view(p0).push(f@));
        } else if is_go_flag_exec(f.as_str()) {
            go_hits_v.push(f.clone());
            assert(strings_view(go_hits_v@) == strings_view(g0).push(f@));
        } else if is_rust_flag_exec(f.as_str()) {
            rust_hits_v.push(f.clone());
            assert(strings_view(rust_hits_v@) == strings_view(r0).push(f@));
        } else {
            unknown_v.push(f.clone());
            assert(strings_view(unknown_v@) == strings_view(u0).push(f@));
        }
        i = i + 1;
    }
    assert(all.take(all.len() as int) == all);

    // Python beats everything else (ML workloads are explicit opt-in).
    let route = if python_hits_v.len() > 0 {
        let list = debug_vec(&python_hits_v);
        Route {
            target: Target::Python,
            storage,
            reason: make_message("boundary flags ", list.as_str(), " routed to Python backend"),
        }
    } else if go_hits_v.len() > 0 {
        let list = debug_vec(&go_hits_v);
        Route {
            target: Target::Go,
            storage,
            reason: make_message("boundary flags ", list.as_str(), " routed to Go backend"),
        }
    } else if rust_hits_v.len() > 0 {
        let list = debug_vec(&rust_hits_v);
        Route {
            target: Target::Rust,
            storage,
            reason: make_message("boundary flags ", list.as_str(), " routed to Rust backend"),
        }
    } else {
        Route {
            target: Target::Rust,
            storage,
            reason: string_of("no explicit boundary flags; defaulting to Rust compute backend"),
        }
    };

    let mut diagnostics: Vec<RoutingDiagnostic> = Vec::new();
    let rt = contains_str(&rust_hits_v, "real_time");
    let za = contains_str(&rust_hits_v, "zero_allocation");
    if python_hits_v.len() == 0 && go_hits_v.len() > 0 {
        if rt {
            let m = make_message(
                "module `",
                module_name,
                "` has `real_time` flag but is routed to Go (GC is non-deterministic; FADEC/PREEMPT_RT targets must use Rust; see ARCHITECTURE.md § Go GC Determinism)",
            );
            push_diag(&mut diagnostics, DiagnosticKind::RealTimeGoConflict, module_name, m);
        }
        if za {
            let m = make_message(
                "module `",
                module_name,
                "` has `zero_allocation` flag but is routed to Go (Go allocates via GC; zero-allocation guarantees cannot be upheld; see ARCHITECTURE.md § Go GC Determinism)",
            );
            push_diag(&mut diagnostics, DiagnosticKind::ZeroAllocGoConflict, module_name, m);
        }
    } else if python_hits_v.len() > 0 {
        if rt {
            let m = make_message(
                "module `",
                module_name,
                "` has `real_time` flag but is routed to Python (the Python runtime is non-deterministic; real-time targets must use Rust)",
            );
            push_diag(&mut diagnostics, DiagnosticKind::RealTimePythonConflict, module_name, m);
        }
        if za {
            let m = make_message(
                "module `",
                module_name,
                "` has `zero_allocation` flag but is routed to Python (Python allocates implicitly; zero-allocation guarantees cannot be upheld)",
            );
            push_diag(&mut diagnostics, DiagnosticKind::ZeroAllocPythonConflict, module_name, m);
        }
    }
    assert(diagnostics@.map_values(|d: RoutingDiagnostic| diag_view(d)) =~= conflict_diags(attrs@, module_name@));

    let ghost unknown = unknown_flags(attrs@);
    let ghost c0 = diagnostics@.map_values(|d: RoutingDiagnostic| diag_view(d));
    let mut k: usize = 0;
    while k < unknown_v.len()
        invariant
            k <= unknown_v@.len(),
            strings_view(unknown_v@) == unknown,
            diagnostics@.map_values(|d: RoutingDiagnostic| diag_view(d)) == c0
                + unknown.take(k as int).map_values(|f: Seq<char>| (DiagnosticKind::UnrecognizedBoundaryFlag, unknown_flag_message(module_name@, f))),
            forall|j: int| 0 <= j < diagnostics@.len() ==> #[trigger] diagnostics@[j].module@ == module_name@,
        decreases unknown_v@.len() - k,
    {
        let mut m = make_message("module `", module_name, "` has unrecognized boundary flag `");
        push_str(&mut m, unknown_v[k].as_str());
        push_str(&mut m, "`; it does not influence routing");
        assert(unknown[k as int] == unknown_v@[k as int]@);
        assert(m@ =~= unknown_flag_message(module_name@, unknown[k as int]));
        assert(unknown.take(k + 1) == unknown.take(k as int).push(unknown[k as int]));
        let ghost d0 = diagnostics@;
        push_diag(&mut diagnostics, DiagnosticKind::UnrecognizedBoundaryFlag, module_name, m);
        assert(diagnostics@.map_values(|d: RoutingDiagnostic| diag_view(d)) =~= d0.map_values(|d: RoutingDiagnostic| diag_view(d)).push(
            (DiagnosticKind::UnrecognizedBoundaryFlag, unknown_flag_message(module_name@, unknown[k as int]))));
        assert(diagnostics@.map_values(|d: RoutingDiagnostic| diag_view(d)) =~= c0
            + unknown.take(k + 1).map_values(|f: Seq<char>| (DiagnosticKind::UnrecognizedBoundaryFlag, unknown_flag_message(module_name@, f))));
        k = k + 1;
    }
    assert(unknown.take(unknown.len() as int) == unknown);

    let bad = collect_bad_state(attrs);
    let ghost badv = bad_state_values(attrs@);
    let ghost c1 = diagnostics@.map_values(|d: RoutingDiagnostic| diag_view(d));
    let mut k: usize = 0;
    while k < bad.len()
        invariant
            k <= bad@.len(),
            strings_view(bad@) == badv,
            diagnostics@.map_values(|d: RoutingDiagnostic| diag_view(d)) == c1
                + badv.take(k as int).map_values(|v: Seq<char>| (DiagnosticKind::UnrecognizedStateValue, unknown_state_message(module_name@, v))),
            forall|j: int| 0 <= j < diagnostics@.len() ==> #[trigger] diagnostics@[j].module@ == module_name@,
        decreases bad@.len() - k,
    {
        let mut m = make_message("module `", module_name, "` has unrecognized @state value `");
        push_str(&mut m, bad[k].as_str());
        push_str(&mut m, "`; expected `persistent` or `ephemeral`");
        assert(badv[k as int] == bad@[k as int]@);
        assert(m@ =~= unknown_state_message(module_name@, badv[k as int]));
        assert(badv.take(k + 1) == badv.take(k as int).push(badv[k as int]));
        let ghost d0 = diagnostics@;
        push_diag(&mut diagnostics, DiagnosticKind::UnrecognizedStateValue, module_name, m);
        assert(diagnostics@.map_values(|d: RoutingDiagnostic| diag_view(d)) =~= d0.map_values(|d: RoutingDiagnostic| diag_view(d)).push(
            (DiagnosticKind::UnrecognizedStateValue, unknown_state_message(module_name@, badv[k as int]))));
        assert(diagnostics@.map_values(|d: RoutingDiagnostic| diag_view(d)) =~= c1
            + badv.take(k + 1).map_values(|v: Seq<char>| (DiagnosticKind::UnrecognizedStateValue, unknown_state_message(module_name@, v))));
        k = k + 1;
    }
    assert(badv.take(badv.len() as int) == badv);

    (route, diagnostics)
}

/// Route a module from its own `@boundary` attributes, discarding
/// diagnostics.
pub fn route(attrs: &[Attribute]) -> (r: Route)
    ensures
        r.target == target_spec(attrs@),
        r.storage == storage_spec(attrs@),
        r.reason@ == reason_spec(attrs@),
{
    route_checked(attrs, "").0
}

} // verus!
