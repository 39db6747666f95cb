//! Editor analysis: reports, diagnostics, hover text, quick fixes and the
//! source formatter.

use telos::analysis::{
    analyze, code_actions, diagnostics, hover_markdown, SEVERITY_ERROR, SEVERITY_INFO,
};
use telos::format::format_source;

const DEPOSIT: &str = r#"
    module Bank {
        invariant Wallet { balance >= 0 }
        func deposit(w: Wallet, amount: PositiveInt)
            ensures w.balance == old(w.balance) + amount
        { mutate state { w.balance += amount } }
    }
"#;

const WITHDRAW: &str = r#"
    module Bank {
        invariant Wallet { balance >= 0 }
        func withdraw(w: Wallet, amount: Int)
            ensures w.balance == old(w.balance) - amount
        { mutate state { w.balance -= amount } }
    }
"#;

#[test]
fn analyze_reports_each_function() {
    let reports = analyze(DEPOSIT).unwrap();
    assert_eq!(reports.len(), 1);
    assert_eq!(reports[0].name, "deposit");
    assert!(reports[0].verified);
    assert_eq!(reports[0].module, "Bank");
    assert_eq!(reports[0].signature, "deposit(w: Wallet, amount: PositiveInt)");
    assert_eq!(reports[0].ensures, vec!["w.balance == old(w.balance) + amount".to_string()]);
    assert_eq!(reports[0].target, "rust");
    assert_eq!(reports[0].line, 3);
    assert!(!reports[0].ejected);
}

#[test]
fn correct_implementation_has_no_diagnostics() {
    assert!(diagnostics(DEPOSIT).is_empty());
}

#[test]
fn parse_error_gives_one_error_diagnostic() {
    let diags = diagnostics("module {");
    assert!(!diags.is_empty());
    assert_eq!(diags[0].severity, SEVERITY_ERROR);
}

#[test]
fn ejected_function_is_informational_not_error() {
    let text = r#"
module M {
    invariant W { balance >= 0 }
    @eject(rust)
    func f(w: W, amount: PositiveInt)
        requires w.balance >= amount
        ensures w.balance == old(w.balance) - amount
    {
        mutate state {
            w.balance += amount
        }
    }
}
"#;
    let diags = diagnostics(text);
    assert!(
        diags.iter().all(|d| d.severity != SEVERITY_ERROR),
        "ejected function should not produce error diagnostics: {diags:?}"
    );
    assert!(!diags.is_empty());
    assert!(diags.iter().all(|d| d.severity == SEVERITY_INFO && d.line == 4));
    assert!(diags[0].message.starts_with("ejected (trusted) — boundary guard enforces: "));
}

#[test]
fn broken_contract_is_an_error_on_the_func_line() {
    let diags = diagnostics(WITHDRAW);
    assert!(!diags.is_empty());
    let d = &diags[0];
    assert_eq!(d.severity, SEVERITY_ERROR);
    assert_eq!(d.line, 3);
    assert_eq!(d.character, 0);
    assert_eq!(d.end_line, 3);
    assert_eq!(d.end_character, "        func withdraw(w: Wallet, amount: Int)".chars().count());
    assert!(d.message.starts_with("contract not satisfied: "), "{}", d.message);
    assert!(d.message.contains(" — counterexample: {"), "{}", d.message);
}

#[test]
fn hover_names_the_function_under_the_cursor() {
    let src = "module M {\n    func noop(w: Wallet) ;\n}";
    let md = hover_markdown(src, 1, 9).unwrap();
    assert!(md.contains("noop"));
    assert!(hover_markdown("module M {}", 0, 0).is_none());
}

#[test]
fn hover_text_is_exact() {
    let src = "module M {\n    func noop(w: Wallet) ;\n}";
    let md = hover_markdown(src, 1, 13).unwrap();
    assert_eq!(
        md,
        "### func `noop`\n\n```\nfunc noop(w: Wallet)\n```\n\n- **module:** `M`\n- **target:** `rust`\n- **status:** VERIFIED — contract mathematically proven\n"
    );
    // On the declaring line but away from any word: found by line.
    assert_eq!(hover_markdown(src, 1, 0), Some(md.clone()));
    // Past the end of the name: the word just before the cursor.
    assert_eq!(hover_markdown(src, 1, 13), Some(md));
}

#[test]
fn hover_lists_unsatisfied_checks_and_counterexamples() {
    let md = hover_markdown(WITHDRAW, 3, 15).unwrap();
    assert!(md.contains("UNVERIFIED — contract NOT satisfied"));
    assert!(md.contains("\n**ensures**\n- `w.balance == old(w.balance) - amount`\n"));
    assert!(md.contains("\n**unsatisfied**\n"));
    assert!(md.contains("\n**counterexamples**\n"));
}

#[test]
fn quick_fix_excludes_the_counterexample() {
    let fixes = code_actions(WITHDRAW);
    assert!(!fixes.is_empty());
    assert!(fixes[0].new_text.contains("requires"));
    assert!(fixes[0].new_text.starts_with("    requires !("));
    assert!(fixes[0].new_text.ends_with(")\n"));
    assert_eq!(fixes[0].line, 4);
    assert!(fixes[0].title.starts_with("Add `requires` excluding counterexample for `"));
    // Names come sorted.
    let clause = fixes[0].new_text.trim().trim_start_matches("requires !(").trim_end_matches(')');
    let names: Vec<&str> = clause.split(" && ").map(|p| p.split(" == ").next().unwrap()).collect();
    let mut sorted = names.clone();
    sorted.sort();
    assert_eq!(names, sorted);
    assert!(code_actions(DEPOSIT).is_empty());
    assert!(code_actions("module {").is_empty());
}

#[test]
fn format_source_renders_canonically() {
    let formatted = format_source("module M { func noop(w: Wallet) ; }").unwrap();
    assert!(formatted.contains("module M"));
    assert!(formatted.contains("func noop"));
    assert_eq!(formatted, "module M {\n    func noop(w: Wallet);\n}\n");
}

#[test]
fn format_source_lays_out_bodies_and_clauses() {
    let src = "@boundary(cpu_bound) module Bank { invariant Wallet { balance >= 0 } \
               func deposit(mut w: Wallet, amount: PositiveInt) requires amount > 0 ensures w.balance == old(w.balance) + amount \
               { mutate state { w.balance += amount } } }";
    let expected = "@boundary(cpu_bound)\nmodule Bank {\n    invariant Wallet {\n        balance >= 0\n    }\n\n    \
                    func deposit(mut w: Wallet, amount: PositiveInt)\n        requires amount > 0\n        \
                    ensures w.balance == old(w.balance) + amount\n    {\n        mutate state {\n            \
                    w.balance += amount;\n        }\n    }\n}\n";
    assert_eq!(format_source(src).unwrap(), expected);
    // Formatting is stable.
    assert_eq!(format_source(expected).unwrap(), expected);
}

#[test]
fn format_source_reports_parse_errors() {
    assert!(format_source("module {").is_err());
}
