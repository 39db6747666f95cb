//! The language server's state machine, driven with decoded messages.

use telos::server::{Message, Outgoing, Reply, Server};

const WITHDRAW: &str = r#"
    module Bank {
        invariant Wallet { balance >= 0 }
        func withdraw(w: Wallet, amount: Int)
            ensures w.balance == old(w.balance) - amount
        { mutate state { w.balance -= amount } }
    }
"#;

fn open(s: &mut Server, uri: &str, text: &str) -> Vec<Outgoing> {
    s.handle(&Message::DidOpen { uri: uri.to_string(), text: text.to_string() })
}

#[test]
fn server_initialize_advertises_capabilities() {
    let mut s = Server::new();
    let out = s.handle(&Message::Initialize);
    assert_eq!(out.len(), 1);
    assert!(matches!(out[0], Outgoing::Response(Reply::Capabilities)));
}

#[test]
fn shutdown_then_exit_flags_server() {
    let mut s = Server::new();
    assert!(!s.should_exit());
    let out = s.handle(&Message::Shutdown);
    assert!(matches!(out[0], Outgoing::Response(Reply::Null)));
    assert!(!s.should_exit());
    let out = s.handle(&Message::Exit);
    assert!(out.is_empty());
    assert!(s.should_exit());
}

#[test]
fn unknown_request_returns_method_not_found() {
    let mut s = Server::new();
    let out = s.handle(&Message::Other { method: "no/such/method".to_string(), is_request: true });
    match &out[0] {
        Outgoing::Error { code, message } => {
            assert_eq!(*code, -32601);
            assert_eq!(message, "method not found: no/such/method");
        }
        other => panic!("unexpected {other:?}"),
    }
    let out = s.handle(&Message::Other { method: "$/cancel".to_string(), is_request: false });
    assert!(out.is_empty());
}

#[test]
fn did_open_publishes_diagnostics() {
    let mut s = Server::new();
    let out = open(&mut s, "file:///w.telos", WITHDRAW);
    assert_eq!(out.len(), 1);
    match &out[0] {
        Outgoing::PublishDiagnostics { uri, diagnostics } => {
            assert_eq!(uri, "file:///w.telos");
            assert!(!diagnostics.is_empty());
        }
        other => panic!("unexpected {other:?}"),
    }
    assert_eq!(s.document("file:///w.telos").map(|t| t.as_str()), Some(WITHDRAW));
}

#[test]
fn handle_did_change_updates_document() {
    let mut s = Server::new();
    open(&mut s, "u", "module M {}");
    let out = s.handle(&Message::DidChange {
        uri: "u".to_string(),
        text: Some("module M { invariant W { balance >= 0 } }".to_string()),
    });
    assert!(matches!(out[0], Outgoing::PublishDiagnostics { .. }));
    assert_eq!(s.document("u").unwrap(), "module M { invariant W { balance >= 0 } }");
    s.handle(&Message::DidChange { uri: "u".to_string(), text: None });
    assert_eq!(s.document("u").unwrap(), "module M { invariant W { balance >= 0 } }");
}

#[test]
fn handle_code_action_suggests_requires_fix() {
    let mut s = Server::new();
    open(&mut s, "u", WITHDRAW);
    let out = s.handle(&Message::CodeAction { uri: "u".to_string() });
    match &out[0] {
        Outgoing::Response(Reply::CodeActions { uri, fixes }) => {
            assert_eq!(uri, "u");
            assert!(!fixes.is_empty());
            assert!(fixes[0].new_text.contains("requires"));
        }
        other => panic!("unexpected {other:?}"),
    }
}

#[test]
fn close_forgets_the_document_and_clears_diagnostics() {
    let mut s = Server::new();
    open(&mut s, "u", WITHDRAW);
    open(&mut s, "v", "module M {}");
    let out = s.handle(&Message::DidClose { uri: "u".to_string() });
    match &out[0] {
        Outgoing::PublishDiagnostics { uri, diagnostics } => {
            assert_eq!(uri, "u");
            assert!(diagnostics.is_empty());
        }
        other => panic!("unexpected {other:?}"),
    }
    assert!(s.document("u").is_none());
    assert!(s.document("v").is_some());
}

#[test]
fn verify_request_summarises_functions() {
    let mut s = Server::new();
    let out = s.handle(&Message::Verify { uri: "missing".to_string() });
    assert!(matches!(out[0], Outgoing::Response(Reply::NotOpen)));
    open(&mut s, "u", WITHDRAW);
    let out = s.handle(&Message::Verify { uri: "u".to_string() });
    match &out[0] {
        Outgoing::Response(Reply::VerifySummary { ok, reports }) => {
            assert!(!ok);
            assert_eq!(reports.len(), 1);
            assert_eq!(reports[0].name, "withdraw");
        }
        other => panic!("unexpected {other:?}"),
    }
    open(&mut s, "bad", "module {");
    let out = s.handle(&Message::Verify { uri: "bad".to_string() });
    assert!(matches!(out[0], Outgoing::Response(Reply::VerifyError(_))));
}

#[test]
fn hover_and_formatting_over_open_documents() {
    let mut s = Server::new();
    open(&mut s, "u", "module M { func noop(w: Wallet) ; }\n");
    let out = s.handle(&Message::Hover { uri: "u".to_string(), line: 0, character: 17 });
    match &out[0] {
        Outgoing::Response(Reply::Hover(md)) => assert!(md.contains("### func `noop`")),
        other => panic!("unexpected {other:?}"),
    }
    let out = s.handle(&Message::Hover { uri: "nope".to_string(), line: 0, character: 0 });
    assert!(matches!(out[0], Outgoing::Response(Reply::Null)));
    let out = s.handle(&Message::Formatting { uri: "u".to_string() });
    match &out[0] {
        Outgoing::Response(Reply::Formatting { formatted, line_count, last_line_len }) => {
            assert_eq!(formatted, "module M {\n    func noop(w: Wallet);\n}\n");
            assert_eq!(*line_count, 1);
            assert_eq!(*last_line_len, "module M { func noop(w: Wallet) ; }".len());
        }
        other => panic!("unexpected {other:?}"),
    }
}

#[test]
fn verify_and_formatting_follow_the_lexer_on_bad_and_blank_documents() {
    let mut s = Server::new();
    open(&mut s, "bad", "module M $");
    let out = s.handle(&Message::Verify { uri: "bad".to_string() });
    match &out[0] {
        Outgoing::Response(Reply::VerifyError(e)) => assert_eq!(e, "unexpected character `$` at offset 9"),
        other => panic!("unexpected {other:?}"),
    }
    let out = s.handle(&Message::Formatting { uri: "bad".to_string() });
    assert!(matches!(out[0], Outgoing::Response(Reply::NoEdits)));
    open(&mut s, "blank", "  \n");
    let out = s.handle(&Message::Verify { uri: "blank".to_string() });
    match &out[0] {
        Outgoing::Response(Reply::VerifySummary { ok, reports }) => {
            assert!(*ok);
            assert!(reports.is_empty());
        }
        other => panic!("unexpected {other:?}"),
    }
    let out = open(&mut s, "blank", "  \n");
    match &out[0] {
        Outgoing::PublishDiagnostics { diagnostics, .. } => assert!(diagnostics.is_empty()),
        other => panic!("unexpected {other:?}"),
    }
}
