use telos::ast::{Arg, Attribute};
use telos::router::{route, route_checked, DiagnosticKind, StorageClass, Target};

fn attr(flags: &[&str]) -> Attribute {
    Attribute {
        name: "boundary".to_string(),
        args: flags.iter().map(|f| Arg::Flag(f.to_string())).collect(),
    }
}

#[test]
fn network_io_routes_to_go() {
    let r = route(&[attr(&["network_io"])]);
    assert_eq!(r.target, Target::Go);
}

#[test]
fn cpu_bound_routes_to_rust() {
    let r = route(&[attr(&["cpu_bound"])]);
    assert_eq!(r.target, Target::Rust);
}

#[test]
fn no_flags_default_rust() {
    let r = route(&[]);
    assert_eq!(r.target, Target::Rust);
}

// ---- every Rust-bound boundary flag ----

#[test]
fn zero_allocation_routes_to_rust() {
    let r = route(&[attr(&["zero_allocation"])]);
    assert_eq!(r.target, Target::Rust);
}

#[test]
fn crypto_routes_to_rust() {
    let r = route(&[attr(&["crypto"])]);
    assert_eq!(r.target, Target::Rust);
}

#[test]
fn real_time_routes_to_rust() {
    let r = route(&[attr(&["real_time"])]);
    assert_eq!(r.target, Target::Rust);
}

// ---- every Go-bound boundary flag ----

#[test]
fn high_concurrency_routes_to_go() {
    let r = route(&[attr(&["high_concurrency"])]);
    assert_eq!(r.target, Target::Go);
}

#[test]
fn distributed_routes_to_go() {
    let r = route(&[attr(&["distributed"])]);
    assert_eq!(r.target, Target::Go);
}

#[test]
fn high_latency_routes_to_go() {
    let r = route(&[attr(&["high_latency"])]);
    assert_eq!(r.target, Target::Go);
}

// ---- combinations ----

#[test]
fn lib_multiple_rust_flags_still_rust() {
    let r = route(&[attr(&["cpu_bound", "zero_allocation", "crypto"])]);
    assert_eq!(r.target, Target::Rust);
}

#[test]
fn lib_multiple_go_flags_still_go() {
    let r = route(&[attr(&["network_io", "high_concurrency"])]);
    assert_eq!(r.target, Target::Go);
}

#[test]
fn go_flag_wins_over_rust_flag() {
    // A mixed annotation is treated as a Go (distributed/network) target.
    let r = route(&[attr(&["cpu_bound", "network_io"])]);
    assert_eq!(r.target, Target::Go);
}

#[test]
fn unrecognised_flag_defaults_to_rust() {
    // Unknown flags contribute nothing; the default compute backend applies.
    let r = route(&[attr(&["some_future_flag"])]);
    assert_eq!(r.target, Target::Rust);
}

#[test]
fn route_records_justification() {
    let r = route(&[attr(&["network_io"])]);
    assert!(r.reason.contains("network_io"));
    assert!(r.is_rust() == (r.target == Target::Rust));
}

// ---- Python target ----

#[test]
fn ml_training_routes_to_python() {
    let r = route(&[attr(&["ml_training"])]);
    assert_eq!(r.target, Target::Python);
}

#[test]
fn python_flag_routes_to_python() {
    let r = route(&[attr(&["python"])]);
    assert_eq!(r.target, Target::Python);
}

#[test]
fn jax_flag_routes_to_python() {
    let r = route(&[attr(&["jax"])]);
    assert_eq!(r.target, Target::Python);
}

#[test]
fn python_beats_go_flag() {
    // ml_training takes priority over network_io.
    let r = route(&[attr(&["ml_training", "network_io"])]);
    assert_eq!(r.target, Target::Python);
}

// ---- Real-time conflict diagnostics ----

#[test]
fn real_time_go_conflict_emits_diagnostic() {
    let (r, diags) = route_checked(&[attr(&["real_time", "network_io"])], "ControlLoop");
    assert_eq!(r.target, Target::Go);
    assert!(diags
        .iter()
        .any(|d| d.kind == DiagnosticKind::RealTimeGoConflict));
}

#[test]
fn zero_alloc_go_conflict_emits_diagnostic() {
    let (r, diags) = route_checked(&[attr(&["zero_allocation", "high_concurrency"])], "Buffer");
    assert_eq!(r.target, Target::Go);
    assert!(diags
        .iter()
        .any(|d| d.kind == DiagnosticKind::ZeroAllocGoConflict));
}

#[test]
fn real_time_alone_has_no_diagnostics() {
    let (r, diags) = route_checked(&[attr(&["real_time"])], "FADEC");
    assert_eq!(r.target, Target::Rust);
    assert!(diags.is_empty());
}

#[test]
fn python_target_has_no_diagnostics() {
    let (r, diags) = route_checked(&[attr(&["ml_training"])], "TrainLayer");
    assert_eq!(r.target, Target::Python);
    assert!(diags.is_empty());
}

// ---- Storage class ----

fn state_attr(class: &str) -> Attribute {
    Attribute {
        name: "state".to_string(),
        args: vec![Arg::Flag(class.to_string())],
    }
}

#[test]
fn state_persistent_sets_storage_class() {
    let r = route(&[state_attr("persistent")]);
    assert_eq!(r.storage, StorageClass::Persistent);
}

#[test]
fn state_ephemeral_sets_storage_class() {
    let r = route(&[state_attr("ephemeral")]);
    assert_eq!(r.storage, StorageClass::Ephemeral);
}

#[test]
fn no_state_defaults_to_ephemeral() {
    let r = route(&[]);
    assert_eq!(r.storage, StorageClass::Ephemeral);
}

#[test]
fn state_with_boundary_combines() {
    let boundary = attr(&["network_io"]);
    let state = state_attr("persistent");
    let r = route(&[boundary, state]);
    assert_eq!(r.target, Target::Go);
    assert_eq!(r.storage, StorageClass::Persistent);
}

