//! The command-line outline of parsed modules, and starter modules.

use telos::outline::{outline, outline_module, summarize};
use telos::parser::parse;
use telos::template::{starter_module, starter_path};

#[test]
fn outline_of_a_small_module() {
    let src = r#"
        @boundary(cpu_bound)
        module Bank {
            invariant Wallet { balance >= 0 }
            struct Point { x: Int, y: Float64 }
            func deposit(w: Wallet, amount: PositiveInt)
                requires amount > 0
                ensures w.balance == old(w.balance) + amount
            { mutate state { w.balance += amount } }
        }
    "#;
    let modules = parse(src).unwrap();
    let text = outline_module(&modules[0]);
    assert_eq!(
        text,
        "@boundary(cpu_bound) module Bank{\n    invariant Wallet { balance >= 0 }\n    struct Point { x: i64, y: f64 }\n    func deposit(w: Wallet, amount: i64)\n        requires amount > 0\n        ensures w.balance == old(w.balance) + amount\n    {\n        mutate state {\n            w.balance += amount;\n        }\n    }\n}"
    );
    assert_eq!(outline(&modules), format!("{}\n", text));
}

#[test]
fn summary_lists_functions_and_invariants() {
    let src = r#"
        module M {
            invariant A { x >= 0 }
            func f(a: Int, b: Float32)
                requires a > 0
                ensures a >= 1
            { mutate state { a += 1 } }
            invariant B { y >= 0 }
        }
    "#;
    let modules = parse(src).unwrap();
    let s = summarize(&modules);
    assert_eq!(s.len(), 1);
    assert_eq!(s[0].name, "M");
    assert_eq!(s[0].invariants, vec!["A".to_string(), "B".to_string()]);
    assert_eq!(s[0].functions.len(), 1);
    let f = &s[0].functions[0];
    assert_eq!(f.name, "f");
    assert_eq!(f.params, vec!["a: i64".to_string(), "b: f32".to_string()]);
    assert_eq!(f.requires, vec!["a > 0".to_string()]);
    assert_eq!(f.ensures, vec!["a >= 1".to_string()]);
}

#[test]
fn starter_templates() {
    let s = starter_module("Shop", "simple").unwrap();
    assert!(s.starts_with("@boundary(cpu_bound)\nmodule Shop {\n\ninvariant Counter {\ncount >= 0\n}\n"));
    assert_eq!(starter_module("Shop", "").unwrap(), s);
    let d = starter_module("Shop", "dual-backend").unwrap();
    assert!(d.contains("module ShopRust {"));
    assert!(d.contains("@boundary(network_io)\nmodule ShopGo {"));
    let e = starter_module("Shop", "eject").unwrap();
    assert!(e.contains("@eject\nfunc process(x: Int): Int\n"));
    assert_eq!(
        starter_module("Shop", "weird").unwrap_err(),
        "unknown template `weird`; valid options: simple, dual-backend, eject"
    );
    assert_eq!(starter_path("Shop", None), "Shop.telos");
    assert_eq!(starter_path("Shop", Some("x/y.telos")), "x/y.telos");
}
