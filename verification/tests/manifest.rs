//! Tests of the proof manifest: source fingerprints, JSON rendering, the
//! embedded static, and the date rendering.

use telos::agent::{Candidate, FuncOutcome};
use telos::ir::VerificationProblem;
use telos::manifest::{generate_manifest, render_rust_proof_static, rfc3339, to_json, FuncProof, ProofManifest};
use telos::router::Target;
use sha2::Digest;
use telos::span::Span;
use telos::verify::{CheckResult, VerificationResult};

fn dummy_outcome(name: &str, verified: bool, checks: usize) -> FuncOutcome {
    let checks_vec: Vec<CheckResult> = (0..checks)
        .map(|i| CheckResult { description: format!("check {}", i), passed: verified, is_ensures: true, is_approximation: false, counterexample: None, or_group: None, location: None })
        .collect();
    let all_passed = checks_vec.iter().all(|c| c.passed);
    FuncOutcome {
        func_name: name.to_string(),
        target: Target::Rust,
        agent: "test".to_string(),
        iterations: vec![],
        final_candidate: Candidate { stmts: vec![] },
        problem: VerificationProblem { func_name: name.to_string(), func_span: Span::default(), premises: vec![], conclusions: vec![] },
        result: VerificationResult { func_name: name.to_string(), checks: checks_vec, all_passed },
        verified,
    }
}

#[test]
fn manifest_has_source_hash() {
    let m = generate_manifest(b"module M {}", &[]);
    assert!(m.source_hash.starts_with("sha256:"), "hash prefix: {}", m.source_hash);
    assert_eq!(m.source_hash.len(), 7 + 64);
}

#[test]
fn manifest_hash_is_stable() {
    let m1 = generate_manifest(b"hello", &[]);
    let m2 = generate_manifest(b"hello", &[]);
    assert_eq!(m1.source_hash, m2.source_hash);
}

#[test]
fn manifest_hash_changes_on_different_source() {
    let m1 = generate_manifest(b"module A {}", &[]);
    let m2 = generate_manifest(b"module B {}", &[]);
    assert_ne!(m1.source_hash, m2.source_hash);
}

#[test]
fn to_json_is_valid_json_structure() {
    let o = dummy_outcome("transfer", true, 2);
    let m = generate_manifest(b"src", &[o]);
    let json = to_json(&m);
    assert!(json.contains("\"schema_version\""), "missing schema_version: {json}");
    assert!(json.contains("\"transfer\""), "missing function: {json}");
    assert!(json.contains("\"verified\": true"), "missing verified: {json}");
    assert!(json.contains("\"manifest_hash\""), "missing manifest_hash: {json}");
}

#[test]
fn rust_static_contains_used_attr() {
    let m = generate_manifest(b"x", &[]);
    let s = render_rust_proof_static(&m);
    assert!(s.contains("#[used]"), "missing #[used]: {s}");
    assert!(s.contains("TELOS_PROOF_MANIFEST"), "missing static name: {s}");
}

#[test]
fn source_hash_of_empty_input_is_the_sha256_of_nothing() {
    let m = generate_manifest(b"", &[]);
    assert_eq!(m.source_hash, "sha256:e3b0c44298fc1c149afbf4c8996fb92427ae41e4649b934ca495991b7852b855");
}

#[test]
fn records_are_sorted_and_later_outcomes_win() {
    let m = generate_manifest(b"src", &[dummy_outcome("zeta", true, 1), dummy_outcome("alpha", false, 3), dummy_outcome("zeta", false, 2)]);
    let names: Vec<&str> = m.functions.iter().map(|(n, _)| n.as_str()).collect();
    assert_eq!(names, vec!["alpha", "zeta"]);
    assert_eq!(
        m.functions[1].1,
        FuncProof { verified: false, conclusions_checked: 2, conclusions_passed: 0, used_interval_bounding: false }
    );
    assert_eq!(m.functions[0].1.conclusions_checked, 3);
}

#[test]
fn manifest_hash_covers_the_json() {
    let m = generate_manifest(b"src", &[dummy_outcome("f", true, 1)]);
    let mut blank = m.clone();
    blank.manifest_hash = String::new();
    let again = generate_manifest(b"src", &[dummy_outcome("f", true, 1)]);
    assert!(m.manifest_hash.starts_with("sha256:"));
    assert_eq!(m.manifest_hash.len(), 7 + 64);
    let digest = sha2::Sha256::digest(to_json(&blank).as_bytes());
    let hex: String = digest.iter().map(|b| format!("{:02x}", b)).collect();
    assert_eq!(m.manifest_hash, format!("sha256:{hex}"));
    if again.verified_at == m.verified_at {
        assert_eq!(again.manifest_hash, m.manifest_hash);
    }
}

#[test]
fn to_json_exact_text() {
    let m = ProofManifest {
        schema_version: "1",
        source_hash: "sha256:ab".to_string(),
        verified_at: "2024-01-02T03:04:05Z".to_string(),
        functions: vec![
            ("f".to_string(), FuncProof { verified: true, conclusions_checked: 2, conclusions_passed: 2, used_interval_bounding: false }),
            ("g".to_string(), FuncProof { verified: false, conclusions_checked: 1, conclusions_passed: 0, used_interval_bounding: true }),
        ],
        manifest_hash: "".to_string(),
    };
    assert_eq!(
        to_json(&m),
        "{\n  \"schema_version\": \"1\",\n  \"source_hash\": \"sha256:ab\",\n  \"verified_at\": \"2024-01-02T03:04:05Z\",\n  \"functions\": {\n    \"f\": {\n      \"verified\": true,\n      \"conclusions_checked\": 2,\n      \"conclusions_passed\": 2,\n      \"used_interval_bounding\": false\n    },\n    \"g\": {\n      \"verified\": false,\n      \"conclusions_checked\": 1,\n      \"conclusions_passed\": 0,\n      \"used_interval_bounding\": true\n    }\n  },\n  \"manifest_hash\": \"\"\n}\n"
    );
}

#[test]
fn rfc3339_known_instants() {
    assert_eq!(rfc3339(0), "1970-01-01T00:00:00Z");
    assert_eq!(rfc3339(951782400), "2000-02-29T00:00:00Z");
    assert_eq!(rfc3339(1704164645), "2024-01-02T03:04:05Z");
    assert_eq!(rfc3339(4102444799), "2099-12-31T23:59:59Z");
}
