//! Constraint groups from JSON, the contradiction report and its renderings;
//! the JSON reader itself.

use telos::contradiction::{check_contradictions, NamedConstraints};
use telos::ir::{Constraint, Linear, Relation};
use telos::json::{parse_json, JsonError, JsonNumber, JsonValue};
use telos::prove::{build_report, parse_groups, GroupResult, ProveReport};

// ----------------------------------------------------------------- reports

#[test]
fn parses_groups_from_top_level_array() {
    let src = r#"[
        {
            "label": "low",
            "constraints": [
                { "linear": { "terms": [["x", 1]], "constant": 0 }, "relation": "<=" }
            ]
        },
        {
            "label": "high",
            "constraints": [
                { "linear": { "terms": [["x", 1]], "constant": -1 }, "relation": ">=" }
            ]
        }
    ]"#;
    let groups = parse_groups(src).unwrap();
    assert_eq!(groups.len(), 2);
    assert_eq!(groups[0].label, "low");
    assert_eq!(groups[0].constraints.len(), 1);
    assert_eq!(groups[0].constraints[0].1, Relation::Le);
}

#[test]
fn parses_groups_from_object_with_groups_key() {
    let src = r#"{ "groups": [ { "label": "a", "constraints": [] } ] }"#;
    let groups = parse_groups(src).unwrap();
    assert_eq!(groups.len(), 1);
    assert_eq!(groups[0].label, "a");
}

#[test]
fn rejects_unknown_relation() {
    let src = r#"[ { "label": "a", "constraints": [ { "linear": { "terms": [] }, "relation": "~~" } ] } ]"#;
    let err = parse_groups(src).unwrap_err();
    assert!(err.message.contains("unknown relation"));
}

#[test]
fn builds_report_flagging_pairwise_contradiction() {
    let groups = vec![
        NamedConstraints {
            label: "low".to_string(),
            constraints: vec![Constraint(Linear::var("x").sub(&Linear::constant_only(0)), Relation::Le)],
        },
        NamedConstraints {
            label: "high".to_string(),
            constraints: vec![Constraint(Linear::var("x").sub(&Linear::constant_only(1)), Relation::Ge)],
        },
    ];
    let report = build_report(&groups);
    assert_eq!(report.overall_unsat, Some(true));
    assert_eq!(report.contradictory_pairs, vec![("low".to_string(), "high".to_string())]);
    assert_eq!(report.groups[0].self_unsat, Some(false));
}

#[test]
fn builds_report_flagging_self_unsat() {
    let groups = vec![NamedConstraints {
        label: "a".to_string(),
        constraints: vec![
            Constraint(Linear::var("x").sub(&Linear::constant_only(1)), Relation::Ge),
            Constraint(Linear::var("x"), Relation::Le),
        ],
    }];
    let report = build_report(&groups);
    assert_eq!(report.groups[0].self_unsat, Some(true));
}

#[test]
fn human_and_json_format_are_stable() {
    let groups = vec![NamedConstraints {
        label: "low".to_string(),
        constraints: vec![Constraint(Linear::var("x"), Relation::Le)],
    }];
    let report = build_report(&groups);
    let human = report.format_human();
    assert!(human.contains("overall:"));
    assert!(human.contains("low"));
    let json = report.format_json();
    assert!(json.contains("\"overall_unsat\""));
    assert!(json.contains("\"low\""));
}

#[test]
fn check_contradictions_flags_conflicting_rules_without_telos_source() {
    let cpu_critical = NamedConstraints {
        label: "cpu_critical".to_string(),
        constraints: vec![Constraint(Linear::var("cpu_pct").sub(&Linear::constant_only(90)), Relation::Gt)],
    };
    let cpu_nominal = NamedConstraints {
        label: "cpu_nominal".to_string(),
        constraints: vec![Constraint(Linear::var("cpu_pct").sub(&Linear::constant_only(90)), Relation::Le)],
    };
    let disk_full = NamedConstraints {
        label: "disk_full".to_string(),
        constraints: vec![Constraint(Linear::var("disk_pct").sub(&Linear::constant_only(95)), Relation::Ge)],
    };
    let report = check_contradictions(&[cpu_critical, cpu_nominal, disk_full]);
    assert_eq!(report.overall_unsat, Some(true));
    assert_eq!(report.pairs.len(), 1, "only the two cpu rules should conflict: {:?}", report.pairs);
    assert_eq!(report.pairs[0].a, "cpu_critical");
    assert_eq!(report.pairs[0].b, "cpu_nominal");
}

#[test]
fn exact_human_rendering() {
    let report = ProveReport {
        overall_unsat: Some(true),
        groups: vec![
            GroupResult { label: "low".to_string(), self_unsat: Some(false) },
            GroupResult { label: "odd".to_string(), self_unsat: None },
        ],
        contradictory_pairs: vec![("low".to_string(), "high".to_string())],
        warnings: vec!["w1".to_string()],
    };
    assert_eq!(
        report.format_human(),
        "warning: w1\n\
         overall: UNSATISFIABLE (the combined groups can never all hold)\n  \
         group low: consistent (on its own)\n  \
         group odd: undecided (bounds too large)\n  \
         pairwise contradictions:\n    \
         low <-> high\n"
    );
    let none = ProveReport { overall_unsat: None, groups: vec![], contradictory_pairs: vec![], warnings: vec![] };
    assert_eq!(
        none.format_human(),
        "overall: UNDECIDED (bounds too large for the FM solver to decide)\n  pairwise contradictions: none\n"
    );
}

#[test]
fn exact_json_rendering_escapes_labels() {
    let report = ProveReport {
        overall_unsat: Some(false),
        groups: vec![
            GroupResult { label: "a\"b".to_string(), self_unsat: Some(true) },
            GroupResult { label: "c".to_string(), self_unsat: None },
        ],
        contradictory_pairs: vec![("a\"b".to_string(), "c\n".to_string())],
        warnings: vec![],
    };
    let expected = "{\n  \"overall_unsat\": false,\n  \"groups\": [\n    {\n      \"label\": \"a\\\"b\",\n      \"self_unsat\": true\n    },\n    {\n      \"label\": \"c\",\n      \"self_unsat\": null\n    }\n  ],\n  \"contradictory_pairs\": [\n    [\"a\\\"b\", \"c\\n\"]\n  ]\n}\n";
    assert_eq!(report.format_json(), expected);
}

#[test]
fn report_from_parsed_groups_end_to_end() {
    let src = r#"{"groups": [
        {"label": "lo", "constraints": [{"linear": {"terms": [["v", 1]], "constant": -10}, "relation": "<="}]},
        {"label": "hi", "constraints": [{"linear": {"terms": [["v", 1]], "constant": -20}, "relation": ">"}]},
        {"label": "any", "constraints": []}
    ]}"#;
    let report = build_report(&parse_groups(src).unwrap());
    assert_eq!(report.overall_unsat, Some(true));
    assert_eq!(report.contradictory_pairs, vec![("lo".to_string(), "hi".to_string())]);
    assert_eq!(report.groups.len(), 3);
    assert_eq!(report.groups[2].self_unsat, Some(false));
    assert!(report.warnings.is_empty());
}

#[test]
fn schema_errors_name_the_group_and_problem() {
    let e = parse_groups(r#"{"other": 1}"#).unwrap_err();
    assert_eq!(e.message, "top-level object must contain a \"groups\" array");
    assert_eq!(e.offset, 0);
    let e = parse_groups(r#"{"groups": 3}"#).unwrap_err();
    assert_eq!(e.message, "\"groups\" must be an array of group objects");
    let e = parse_groups("7").unwrap_err();
    assert_eq!(e.message, "top-level JSON must be an array of groups or an object with \"groups\"");
    let e = parse_groups("[1]").unwrap_err();
    assert_eq!(e.message, "each group must be an object");
    let e = parse_groups(r#"[{"constraints": []}]"#).unwrap_err();
    assert_eq!(e.message, "group is missing a string \"label\"");
    let e = parse_groups(r#"[{"label": "g"}]"#).unwrap_err();
    assert_eq!(e.message, "group \"g\" is missing a \"constraints\" array");
    let e = parse_groups(r#"[{"label": "g", "constraints": [{"linear": {"terms": [["x", 0.5]]}, "relation": "<"}]}]"#)
        .unwrap_err();
    assert_eq!(e.message, "group \"g\": term coefficient must be an integer");
    let e = parse_groups(r#"[{"label": "g", "constraints": [{"linear": {"terms": [["x"]]}, "relation": "<"}]}]"#)
        .unwrap_err();
    assert_eq!(e.message, "group \"g\": each term must be a [variable, coefficient] pair");
    let e = parse_groups(r#"[{"label": "g", "constraints": [{"relation": "<"}]}]"#).unwrap_err();
    assert_eq!(e.message, "group \"g\": constraint missing \"linear\"");
    let e = parse_groups(r#"[{"label": "g", "constraints": [{"linear": {"terms": []}, "relation": "=<"}]}]"#)
        .unwrap_err();
    assert_eq!(e.message, "group \"g\": unknown relation \"=<\"");
    let e = parse_groups(r#"[{"label": "g", "constraints": [{"linear": {"terms": [], "constant": "1"}, "relation": "<"}]}]"#)
        .unwrap_err();
    assert_eq!(e.message, "group \"g\": \"constant\" must be a number");
}

#[test]
fn integral_numbers_in_any_notation_are_accepted() {
    let src = r#"[{"label": "g", "constraints": [
        {"linear": {"terms": [["x", 2.0], ["y", -3e1]], "constant": 150e-2}, "relation": "=="}
    ]}]"#;
    // 150e-2 is 1.5: not an integer.
    let e = parse_groups(src).unwrap_err();
    assert_eq!(e.message, "group \"g\": \"constant\" must be an integer");
    let src = r#"[{"label": "g", "constraints": [
        {"linear": {"terms": [["x", 2.0], ["y", -3e1]], "constant": 1500e-3}, "relation": "!="}
    ]}]"#;
    let e = parse_groups(src).unwrap_err();
    assert_eq!(e.message, "group \"g\": \"constant\" must be an integer");
    let src = r#"[{"label": "g", "constraints": [
        {"linear": {"terms": [["x", 2.0], ["y", -3e1]], "constant": 1200e-2}, "relation": "!="}
    ]}]"#;
    let groups = parse_groups(src).unwrap();
    let c = &groups[0].constraints[0];
    assert_eq!(c.0.terms, vec![("x".to_string(), 2), ("y".to_string(), -30)]);
    assert_eq!(c.0.constant, 12);
    assert_eq!(c.1, Relation::Ne);
}

// -------------------------------------------------------------------- json

#[test]
fn parses_object_with_array_and_bool() {
    let v = parse_json(r#"{ "a": [1, 2], "b": true }"#).unwrap();
    assert!(v.is_object());
    let a = v.get("a").unwrap().as_array();
    assert_eq!(a.len(), 2);
    assert_eq!(a[0], JsonValue::Number(JsonNumber::Int(1)));
    assert_eq!(v.get("b").unwrap(), &JsonValue::Bool(true));
}

#[test]
fn parses_nested_and_escapes() {
    let v = parse_json(r#"{ "s": "a\"b\nc", "n": { "x": -3.5e2, "y": null } }"#).unwrap();
    assert_eq!(v.get("s").unwrap().as_str(), "a\"b\nc");
    let n = v.get("n").unwrap().as_object();
    assert_eq!(n[0].1, JsonValue::Number(JsonNumber::Int(-350)));
    assert_eq!(n[1].1, JsonValue::Null);
}

#[test]
fn rejects_trailing_characters() {
    let err = parse_json(r#"1 2"#).unwrap_err();
    assert!(err.message.contains("trailing"));
}

#[test]
fn rejects_unterminated_string() {
    let err = parse_json(r#""abc"#).unwrap_err();
    assert!(err.message.contains("unterminated"));
}

#[test]
fn reports_offset_for_error() {
    let src = "{\n  \"a\": 1,\n  bad\n}";
    let err = parse_json(src).unwrap_err();
    let rendered = err.display(src);
    assert!(rendered.starts_with("JSON error at 3:"), "got: {rendered}");
}

#[test]
fn parses_empty_containers() {
    let v = parse_json(r#"{ "a": [], "b": {} }"#).unwrap();
    assert_eq!(v.get("a").unwrap().as_array().len(), 0);
    assert_eq!(v.get("b").unwrap().as_object().len(), 0);
}

#[test]
fn parses_unicode_escape() {
    let v = parse_json(r#""\u00e9""#).unwrap();
    assert_eq!(v.as_str(), "é");
}

#[test]
fn parses_surrogate_pairs_and_simple_escapes() {
    let v = parse_json(r#""\ud83d\ude00\/\t\b""#).unwrap();
    assert_eq!(v.as_str(), "\u{1F600}/\t\u{8}");
    let e = parse_json(r#""\ud83d x""#).unwrap_err();
    assert_eq!(e.message, "invalid surrogate pair");
    let e = parse_json(r#""\ude00""#).unwrap_err();
    assert_eq!(e.message, "bad code point");
    let e = parse_json(r#""\q""#).unwrap_err();
    assert_eq!(e.message, "invalid escape '\\q'");
    assert_eq!(e.offset, 2);
    let e = parse_json(r#""\u12g4""#).unwrap_err();
    assert_eq!(e.message, "invalid hex digit 'g'");
    assert_eq!(e.offset, 5);
}

#[test]
fn numbers_are_classified_exactly() {
    let n = |s: &str| match parse_json(s).unwrap() {
        JsonValue::Number(n) => n,
        other => panic!("not a number: {other:?}"),
    };
    assert_eq!(n("0"), JsonNumber::Int(0));
    assert_eq!(n("-0.000"), JsonNumber::Int(0));
    assert_eq!(n("12.50e1"), JsonNumber::Int(125));
    assert_eq!(n("1.25"), JsonNumber::Fraction);
    assert_eq!(n("9223372036854775807"), JsonNumber::Int(i64::MAX));
    assert_eq!(n("-9223372036854775808"), JsonNumber::Int(i64::MIN));
    assert_eq!(n("9223372036854775808"), JsonNumber::Big(false));
    assert_eq!(n("-1e30"), JsonNumber::Big(true));
    assert_eq!(n("1e-999999999999999999999999"), JsonNumber::Fraction);
    assert_eq!(n("0e999999999999999999999999"), JsonNumber::Int(0));
}

#[test]
fn value_errors_carry_offsets_and_messages() {
    let e = parse_json("").unwrap_err();
    assert_eq!((e.offset, e.message.as_str()), (0, "unexpected end of input"));
    let e = parse_json("  @").unwrap_err();
    assert_eq!((e.offset, e.message.as_str()), (2, "unexpected character '@' at start of value"));
    let e = parse_json("[1 2]").unwrap_err();
    assert_eq!((e.offset, e.message.as_str()), (3, "expected ',' or ']' in array, found '2'"));
    let e = parse_json("{\"a\" 1}").unwrap_err();
    assert_eq!((e.offset, e.message.as_str()), (5, "expected ':', found '1'"));
    let e = parse_json("{1: 2}").unwrap_err();
    assert_eq!((e.offset, e.message.as_str()), (1, "expected string key in object"));
    let e = parse_json("[1,").unwrap_err();
    assert_eq!((e.offset, e.message.as_str()), (3, "unexpected end of input"));
    let e = parse_json("{\"a\": 1").unwrap_err();
    assert_eq!((e.offset, e.message.as_str()), (7, "unterminated object"));
    let e = parse_json("tru").unwrap_err();
    assert_eq!(e.message, "invalid literal (expected true/false)");
    let e = parse_json("-x").unwrap_err();
    assert_eq!(e.message, "invalid number: no digits");
    let e = parse_json("1.").unwrap_err();
    assert_eq!(e.message, "invalid number: '.' without fraction");
    let e = parse_json("1e+").unwrap_err();
    assert_eq!(e.message, "invalid number: exponent without digits");
}

#[test]
fn get_finds_the_first_field_with_a_key() {
    let v = parse_json(r#"{"k": 1, "k": 2}"#).unwrap();
    assert_eq!(v.get("k"), Some(&JsonValue::Number(JsonNumber::Int(1))));
    assert_eq!(v.get("missing"), None);
    assert_eq!(JsonValue::Null.get("k"), None);
    assert!(v.is_object() && !v.is_array() && !v.is_string() && !v.is_number());
}

#[test]
fn error_display_gives_line_and_column() {
    let e = JsonError::new(4, "boom".to_string());
    assert_eq!(e.display("ab\ncdef"), "JSON error at 2:2: boom");
}
