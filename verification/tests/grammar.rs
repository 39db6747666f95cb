//! Source-level grammar tests: generated modules, disjunctions, array and
//! float types, and the AST helper methods.

use telos::ast::{AggregateOp, Item, Type};
use telos::parser::parse;

/// Generate a well-formed minimal telos module that always parses.
fn gen_telos_source(name: &str, func_name: &str, field: &str) -> String {
    format!(
        r#"module {name} {{
    invariant T {{ {field} >= 0 }}
    func {func_name}(x: T)
        requires {field} >= 0
        ensures {field} >= 0
    {{ }}
}}"#,
    )
}

#[test]
fn generated_modules_parse() {
    let cases = vec![
        ("M1", "f1", "a"),
        ("M2", "f2", "balance"),
        ("Wallet", "deposit", "amount"),
        ("Bank", "transfer", "v"),
    ];
    for (mod_name, func_name, field) in cases {
        let src = gen_telos_source(mod_name, func_name, field);
        let result = parse(&src);
        assert!(
            result.is_ok(),
            "Failed to parse generated source for {mod_name}: {:?}\nSource:\n{src}",
            result.err()
        );
        let modules = result.unwrap();
        assert_eq!(modules.len(), 1);
        assert_eq!(modules[0].name, mod_name);
    }
}

#[test]
fn disjunction_parses() {
    let src = r#"
        module M {
            func f(x: Int)
                requires x == 1 || x == 2
                ensures x >= 1 || x <= 0
            { }
        }
    "#;
    let result = parse(src);
    assert!(result.is_ok(), "disjunction should parse: {:?}", result.err());
}

#[test]
fn array_types_parse() {
    let src = r#"
        module M {
            func f(data: [Int; 5]) { }
        }
    "#;
    let result = parse(src);
    assert!(result.is_ok(), "array types should parse: {:?}", result.err());
}

#[test]
fn float_types_parse() {
    let src = r#"
        module M {
            func f(x: Float32, y: Float64) { }
        }
    "#;
    let result = parse(src);
    assert!(result.is_ok(), "float types should parse: {:?}", result.err());
}

#[test]
fn type_name_examples() {
    let ty = Type::Named("Wallet".to_string());
    assert_eq!(ty.name(), "Wallet");
    assert_eq!(Type::int_ty().name(), "Int");
    assert_eq!(Type::positive_int().name(), "PositiveInt");
    assert_eq!(Type::bool().name(), "Bool");
    assert_eq!(Type::string().name(), "String");
    assert_eq!(Type::result(Type::int_ty(), Type::string()).name(), "Result");
    assert_eq!(Type::Tuple(vec![]).name(), "Tuple");
}

#[test]
fn item_func_name_example() {
    let modules = parse("module M { func foo(x: T) ; }").unwrap();
    assert_eq!(modules[0].items[0].func_name(), "foo");
}

#[test]
fn eject_attribute_example() {
    let src = r#"
        module M {
            @eject(rust)
            func compute(x: T) ;
        }
    "#;
    let modules = parse(src).unwrap();
    if let Item::Func(f) = &modules[0].items[0] {
        assert!(f.is_ejected());
        assert_eq!(f.eject_lang(), Some("rust"));
        assert!(!f.returns_result());
    } else {
        panic!("expected a func");
    }
}

#[test]
fn returns_result_detects_result_type() {
    let modules = parse("module M { func f(x: Int) -> Result<Int, String> ; }").unwrap();
    if let Item::Func(f) = &modules[0].items[0] {
        assert!(f.returns_result());
    } else {
        panic!("expected a func");
    }
}

#[test]
fn aggregate_op_names() {
    assert_eq!(AggregateOp::Sum.op_name(), "sum");
    assert_eq!(AggregateOp::Min.op_name(), "min");
    assert_eq!(AggregateOp::Max.op_name(), "max");
    assert_eq!(AggregateOp::Count.op_name(), "count");
}

#[test]
fn bank_doc_example_parses() {
    let src = r#"
        module Bank {
            invariant Wallet { balance >= 0 }

            func deposit(w: Wallet, amount: PositiveInt)
                requires amount > 0
                ensures w.balance == old(w.balance) + amount
            ;
        }
    "#;
    let modules = parse(src).unwrap();
    assert_eq!(modules.len(), 1);
    assert_eq!(modules[0].name, "Bank");
    assert_eq!(modules[0].items.len(), 2);
    assert!(parse("module {").is_err());
}
