//! The language server's state machine: open documents and lifecycle flags,
//! and what each incoming message does to them and is answered with.
//!
//! Messages arrive already decoded into [`Message`]; answers leave as
//! [`Outgoing`] values. Framing, JSON and the request ids stay with the
//! caller, which attaches the id of a request to its response.

use vstd::prelude::*;
use crate::analysis::{
    Diagnostic, FuncReport, QuickFix, analyze, diagnostics, diagnostics_spec, diags_view, analysis_of, known_analysis,
    hover_markdown, hover_result, code_actions, fixes_ok, lines_spec, 
};
use crate::format::{format_source, format_spec};
use crate::parser::module_wf;
use crate::ast::Module;
use crate::text::{str_eq, copy_string};

verus! {

/// An incoming message, by method, with the parameters the server reads.
#[derive(Debug, Clone)]
pub enum Message {
    Initialize,
    Initialized,
    Shutdown,
    Exit,
    DidOpen { uri: String, text: String },
    /// The text of the last content change, when it carries one.
    DidChange { uri: String, text: Option<String> },
    DidSave { uri: String },
    DidClose { uri: String },
    Hover { uri: String, line: usize, character: usize },
    CodeAction { uri: String },
    Formatting { uri: String },
    /// The `telos/verify` request.
    Verify { uri: String },
    /// A method the server does not know; `is_request` when it carries an id.
    Other { method: String, is_request: bool },
}

/// The result part of a response.
#[derive(Debug, Clone)]
pub enum Reply {
    /// The capabilities advertised on `initialize`.
    Capabilities,
    Null,
    /// Markdown hover contents.
    Hover(String),
    /// Quick fixes for the document `uri`.
    CodeActions { uri: String, fixes: Vec<QuickFix> },
    /// One edit replacing lines `0..line_count` (up to `last_line_len` bytes
    /// into the last line) with `formatted`.
    Formatting { formatted: String, line_count: usize, last_line_len: usize },
    /// No edits.
    NoEdits,
    /// A verification summary: `ok` when every function is verified or
    /// ejected.
    VerifySummary { ok: bool, reports: Vec<FuncReport> },
    /// The document did not analyse.
    VerifyError(String),
    /// The request names a document that is not open.
    NotOpen,
}

/// A message to send back.
#[derive(Debug, Clone)]
pub enum Outgoing {
    Response(Reply),
    Error { code: i64, message: String },
    PublishDiagnostics { uri: String, diagnostics: Vec<Diagnostic> },
}

/// The language server: open documents by URI, and lifecycle flags.
pub struct Server {
    documents: Vec<(String, String)>,
    shutdown: bool,
    exit: bool,
}

pub open spec fn docs_view(ds: Seq<(String, String)>) -> Seq<(Seq<char>, Seq<char>)> {
    ds.map_values(|d: (String, String)| (d.0@, d.1@))
}

/// The text of the open document `uri`, if it is open.
pub open spec fn doc_of(ds: Seq<(Seq<char>, Seq<char>)>, uri: Seq<char>) -> Option<Seq<char>>
    decreases ds.len(),
{
    if ds.len() == 0 {
        None
    } else if ds.last().0 == uri {
        Some(ds.last().1)
    } else {
        doc_of(ds.drop_last(), uri)
    }
}

/// No URI is open twice.
pub open spec fn distinct_uris(ds: Seq<(Seq<char>, Seq<char>)>) -> bool {
    forall|i: int, j: int| 0 <= i < j < ds.len() ==> ds[i].0 != ds[j].0
}

/// The method-not-found message.
pub open spec fn not_found_message(method: Seq<char>) -> Seq<char> {
    "method not found: "@ + method
}

/// `x`, or `usize::MAX` when it is larger.
pub open spec fn sat_usize(x: int) -> int {
    if x > usize::MAX { usize::MAX as int } else { x }
}

pub proof fn lemma_utf8_len_nonneg(s: Seq<char>)
    ensures
        utf8_len_of(s) >= 0,
    decreases s.len(),
{
    if s.len() > 0 {
        lemma_utf8_len_nonneg(s.drop_last());
    }
}

/// The number of bytes UTF-8 takes for `c`.
pub open spec fn utf8_len(c: char) -> int {
    if (c as int) < 0x80 { 1 } else if (c as int) < 0x800 { 2 } else if (c as int) < 0x10000 { 3 } else { 4 }
}

pub open spec fn utf8_len_of(s: Seq<char>) -> int
    decreases s.len(),
{
    if s.len() == 0 { 0 } else { utf8_len_of(s.drop_last()) + utf8_len(s.last()) }
}


/// `o` publishes the diagnostics of the document `uri` (none when it is not
/// open).
pub open spec fn publish_ok(docs: Seq<(Seq<char>, Seq<char>)>, uri: Seq<char>, o: Outgoing) -> bool {
    match o {
        Outgoing::PublishDiagnostics { uri: u, diagnostics: d } => {
            &&& u@ == uri
            &&& match doc_of(docs, uri) {
                None => d@.len() == 0,
                Some(t) => diags_ok(t, d@),
            }
        },
        _ => false,
    }
}

/// `fixes` are the quick fixes of some analysis of text `t`.
pub open spec fn actions_ok(t: Seq<char>, fixes: Seq<QuickFix>) -> bool {
    &&& exists|a: Result<Seq<FuncReport>, Seq<char>>|
        (a matches Ok(rs) ==> analysis_of(t, rs)) && #[trigger] fixes_ok(a, fixes)
    &&& known_analysis(t) matches Some(a) ==> fixes_ok(a, fixes)
}

/// `d` are the diagnostics of some analysis of text `t`.
pub open spec fn diags_ok(t: Seq<char>, d: Seq<Diagnostic>) -> bool {
    &&& exists|a: Result<Seq<FuncReport>, Seq<char>>|
        (a matches Ok(rs) ==> analysis_of(t, rs)) && #[trigger] diagnostics_spec(t, a) == diags_view(d)
    &&& known_analysis(t) matches Some(a) ==> diagnostics_spec(t, a) == diags_view(d)
}

/// The reply to a hover request over document text `t`: the hover text,
/// or null.
pub open spec fn hover_reply_ok(t: Option<Seq<char>>, line: usize, character: usize, r: Reply) -> bool {
    let shown = match r {
        Reply::Hover(md) => Some(md@),
        _ => None,
    };
    &&& (r is Hover || r is Null)
    &&& match t {
        None => r is Null,
        Some(text) => {
            &&& exists|a: Result<Seq<FuncReport>, Seq<char>>|
                (a matches Ok(rs) ==> analysis_of(text, rs)) && #[trigger] hover_result(text, a, line as int, character as int) == shown
            &&& known_analysis(text) matches Some(a) ==> hover_result(text, a, line as int, character as int) == shown
        },
    }
}

/// The reply to a code-action request over document text `t`.
pub open spec fn actions_reply_ok(t: Option<Seq<char>>, uri: Seq<char>, r: Reply) -> bool {
    match r {
        Reply::CodeActions { uri: u, fixes } => {
            &&& u@ == uri
            &&& match t {
                None => fixes@.len() == 0,
                Some(text) => actions_ok(text, fixes@),
            }
        },
        _ => false,
    }
}

/// The reply to a formatting request over document text `t`: one edit over
/// all of its lines when it parses.
pub open spec fn format_reply_ok(t: Option<Seq<char>>, r: Reply) -> bool {
    &&& t matches Some(text) ==> (!crate::lexer::lex_ok_from(text, 0) ==> r is NoEdits)
    &&& t matches Some(text) ==> ((crate::lexer::lex_ok_from(text, 0) && crate::lexer::skip_gap(text, 0) == text.len()
        && text.len() < usize::MAX) ==> (r matches Reply::Formatting { formatted, .. } && formatted@ == format_spec(Seq::empty())))
    &&& match r {
        Reply::Formatting { formatted, line_count, last_line_len } => t matches Some(text) && {
            let ls = lines_spec(text);
            &&& line_count == ls.len()
            &&& last_line_len == sat_usize(if ls.len() > 0 { utf8_len_of(ls.last()) } else { 0 })
            &&& exists|ms: Seq<Module>| (forall|k: int| 0 <= k < ms.len() ==> #[trigger] module_wf(ms[k]))
                && formatted@ == #[trigger] format_spec(ms)
        },
        Reply::NoEdits => true,
        _ => false,
    }
}

/// The reply to `telos/verify` over document text `t`.
pub open spec fn verify_reply_ok(t: Option<Seq<char>>, r: Reply) -> bool {
    match t {
        None => r is NotOpen,
        Some(text) => match r {
            Reply::VerifySummary { ok, reports } => analysis_of(text, reports@)
                && (known_analysis(text) matches Some(a) ==> a == Ok::<Seq<FuncReport>, Seq<char>>(reports@))
                && ok == forall|i: int| 0 <= i < reports@.len() ==> (#[trigger] reports@[i]).verified || reports@[i].ejected,
            Reply::VerifyError(e) => known_analysis(text) matches Some(a) ==> a == Err::<Seq<FuncReport>, Seq<char>>(e@),
            _ => false,
        },
    }
}

/// What handling `msg` does: the documents and flags after it, and the
/// messages it answers with.
pub open spec fn handled(pre: Server, post: Server, msg: Message, out: Seq<Outgoing>) -> bool {
    let same_docs = post.docs() == pre.docs();
    let flags_kept = post.shutdown_requested() == pre.shutdown_requested() && post.exit_requested() == pre.exit_requested();
    match msg {
        Message::Initialize => same_docs && flags_kept && out.len() == 1 && match out[0] { Outgoing::Response(Reply::Capabilities) => true, _ => false },
        Message::Initialized => same_docs && flags_kept && out.len() == 0,
        Message::Shutdown => same_docs && post.shutdown_requested() && post.exit_requested() == pre.exit_requested()
            && out.len() == 1 && match out[0] { Outgoing::Response(Reply::Null) => true, _ => false },
        Message::Exit => same_docs && post.exit_requested() && post.shutdown_requested() == pre.shutdown_requested() && out.len() == 0,
        Message::DidOpen { uri, text } => {
            &&& doc_of(post.docs(), uri@) == Some(text@)
            &&& forall|u: Seq<char>| u != uri@ ==> doc_of(#[trigger] post.docs(), u) == doc_of(pre.docs(), u)
            &&& flags_kept && out.len() == 1 && publish_ok(post.docs(), uri@, out[0])
        },
        Message::DidChange { uri, text } => {
            &&& match text {
                Some(t) => doc_of(post.docs(), uri@) == Some(t@)
                    && forall|u: Seq<char>| u != uri@ ==> doc_of(#[trigger] post.docs(), u) == doc_of(pre.docs(), u),
                None => same_docs,
            }
            &&& flags_kept && out.len() == 1 && publish_ok(post.docs(), uri@, out[0])
        },
        Message::DidSave { uri } => same_docs && flags_kept && out.len() == 1 && publish_ok(post.docs(), uri@, out[0]),
        Message::DidClose { uri } => {
            &&& doc_of(post.docs(), uri@) is None
            &&& forall|u: Seq<char>| u != uri@ ==> doc_of(#[trigger] post.docs(), u) == doc_of(pre.docs(), u)
            &&& flags_kept && out.len() == 1 && publish_ok(post.docs(), uri@, out[0])
        },
        Message::Hover { uri, line, character } => same_docs && flags_kept && out.len() == 1
            && match out[0] { Outgoing::Response(r) => hover_reply_ok(doc_of(pre.docs(), uri@), line, character, r), _ => false },
        Message::CodeAction { uri } => same_docs && flags_kept && out.len() == 1
            && match out[0] { Outgoing::Response(r) => actions_reply_ok(doc_of(pre.docs(), uri@), uri@, r), _ => false },
        Message::Formatting { uri } => same_docs && flags_kept && out.len() == 1
            && match out[0] { Outgoing::Response(r) => format_reply_ok(doc_of(pre.docs(), uri@), r), _ => false },
        Message::Verify { uri } => same_docs && flags_kept && out.len() == 1
            && match out[0] { Outgoing::Response(r) => verify_reply_ok(doc_of(pre.docs(), uri@), r), _ => false },
        Message::Other { method, is_request } => same_docs && flags_kept
            && if is_request {
                out.len() == 1 && match out[0] {
                    Outgoing::Error { code, message } => code == -32601 && message@ == not_found_message(method@),
                    _ => false,
                }
            } else {
                out.len() == 0
            },
    }
}

impl Server {
    /// The open documents, as `(uri, text)` pairs.
    pub closed spec fn docs(&self) -> Seq<(Seq<char>, Seq<char>)> {
        docs_view(self.documents@)
    }

    pub closed spec fn shutdown_requested(&self) -> bool {
        self.shutdown
    }

    pub closed spec fn exit_requested(&self) -> bool {
        self.exit
    }

    #[verifier::type_invariant]
    spec fn inv(&self) -> bool {
        distinct_uris(docs_view(self.documents@))
    }

    /// An idle server: no documents, no shutdown or exit requested.
    pub fn new() -> (r: Server)
        ensures
            r.docs() == Seq::<(Seq<char>, Seq<char>)>::empty(),
            !r.shutdown_requested(),
            !r.exit_requested(),
    {
        let r = Server { documents: Vec::new(), shutdown: false, exit: false };
        assert(docs_view(r.documents@) =~= Seq::<(Seq<char>, Seq<char>)>::empty());
        r
    }

    /// Whether the client has asked the server to exit.
    pub fn should_exit(&self) -> (r: bool)
        ensures
            r == self.exit_requested(),
    {
        self.exit
    }

    fn find(&self, uri: &str) -> (r: Option<usize>)
        ensures
            match r {
                Some(i) => i < self.docs().len() && self.docs()[i as int].0 == uri@ && doc_of(self.docs(), uri@) == Some(self.docs()[i as int].1),
                None => doc_of(self.docs(), uri@) is None,
            },
    {
        proof { use_type_invariant(self); }
        let ghost ds = self.docs();
        let mut i: usize = 0;
        while i < self.documents.len()
            invariant
                i <= self.documents@.len(),
                ds == docs_view(self.documents@),
                distinct_uris(ds),
                forall|j: int| 0 <= j < i ==> ds[j].0 != uri@,
            decreases self.documents@.len() - i,
        {
            if str_eq(self.documents[i].0.as_str(), uri) {
                proof { lemma_doc_of_at(ds, i as int); }
                return Some(i);
            }
            i = i + 1;
        }
        proof { lemma_doc_of_absent(ds, uri@); }
        None
    }

    /// The text of the open document `uri`.
    pub fn document(&self, uri: &str) -> (r: Option<&String>)
        ensures
            match r {
                Some(t) => doc_of(self.docs(), uri@) == Some(t@),
                None => doc_of(self.docs(), uri@) is None,
            },
    {
        match self.find(uri) {
            Some(i) => Some(&self.documents[i].1),
            None => None,
        }
    }

    fn open(&mut self, uri: &String, text: String)
        ensures
            doc_of(final(self).docs(), uri@) == Some(text@),
            forall|u: Seq<char>| u != uri@ ==> doc_of(#[trigger] final(self).docs(), u) == doc_of(old(self).docs(), u),
            final(self).shutdown_requested() == old(self).shutdown_requested(),
            final(self).exit_requested() == old(self).exit_requested(),
    {
        proof { use_type_invariant(&*self); }
        let ghost ds = self.docs();
        let found = self.find(uri.as_str());
        let mut docs: Vec<(String, String)> = Vec::new();
        std::mem::swap(&mut docs, &mut self.documents);
        assert(docs_view(docs@) == ds);
        match found {
            Some(i) => {
                docs.set(i, (copy_string(uri), text));
                proof {
                    let nd = docs_view(docs@);
                    assert(nd =~= ds.update(i as int, (uri@, text@)));
                    lemma_doc_of_update(ds, i as int, text@);
                }
            },
            None => {
                docs.push((copy_string(uri), text));
                proof {
                    let nd = docs_view(docs@);
                    assert(nd =~= ds.push((uri@, text@)));
                    assert(nd.drop_last() =~= ds);
                    lemma_doc_of_absent_all(ds, uri@);
                }
            },
        }
        self.documents = docs;
    }

    fn close(&mut self, uri: &String)
        ensures
            doc_of(final(self).docs(), uri@) is None,
            forall|u: Seq<char>| u != uri@ ==> doc_of(#[trigger] final(self).docs(), u) == doc_of(old(self).docs(), u),
            final(self).shutdown_requested() == old(self).shutdown_requested(),
            final(self).exit_requested() == old(self).exit_requested(),
    {
        proof { use_type_invariant(&*self); }
        let ghost ds = self.docs();
        let found = self.find(uri.as_str());
        let mut docs: Vec<(String, String)> = Vec::new();
        std::mem::swap(&mut docs, &mut self.documents);
        assert(docs_view(docs@) == ds);
        match found {
            Some(i) => {
                docs.remove(i);
                proof {
                    let nd = docs_view(docs@);
                    assert(nd =~= ds.remove(i as int));
                    lemma_doc_of_remove(ds, i as int);
                }
            },
            None => {},
        }
        self.documents = docs;
    }
    fn publish(&self, uri: &String) -> (r: Outgoing)
        ensures
            publish_ok(self.docs(), uri@, r),
    {
        match self.document(uri.as_str()) {
            Some(text) => {
                let diags = diagnostics(text.as_str());
                let ghost dv = diags_view(diags@);
                let r = Outgoing::PublishDiagnostics { uri: copy_string(uri), diagnostics: diags };
                proof {
                    let t = text@;
                    assert(doc_of(self.docs(), uri@) == Some(t));
                    let a = choose|a: Result<Seq<FuncReport>, Seq<char>>|
                        (a matches Ok(rs) ==> analysis_of(t, rs)) && #[trigger] diagnostics_spec(t, a) == dv;
                    assert((a matches Ok(rs) ==> analysis_of(t, rs)) && diagnostics_spec(t, a) == dv);
                    assert(r->PublishDiagnostics_uri@ == uri@);
                    assert(diags_view(r->PublishDiagnostics_diagnostics@) == dv);
                    assert(diags_ok(t, r->PublishDiagnostics_diagnostics@));
                    assert(publish_ok(self.docs(), uri@, r));
                }
                r
            },
            None => {
                let diags: Vec<Diagnostic> = Vec::new();
                Outgoing::PublishDiagnostics { uri: copy_string(uri), diagnostics: diags }
            },
        }
    }

    /// Handle one incoming message: update the documents and flags, and
    /// return the messages to send back.
    pub fn handle(&mut self, msg: &Message) -> (out: Vec<Outgoing>)
        ensures
            handled(*old(self), *final(self), *msg, out@),
    {
        proof { use_type_invariant(&*self); }
        let mut out: Vec<Outgoing> = Vec::new();
        match msg {
            Message::Initialize => {
                out.push(Outgoing::Response(Reply::Capabilities));
            },
            Message::Initialized => {},
            Message::Shutdown => {
                self.shutdown = true;
                out.push(Outgoing::Response(Reply::Null));
            },
            Message::Exit => {
                self.exit = true;
            },
            Message::DidOpen { uri, text } => {
                self.open(uri, copy_string(text));
                let p = self.publish(uri);
                out.push(p);
            },
            Message::DidChange { uri, text } => {
                match text {
                    Some(t) => self.open(uri, copy_string(t)),
                    None => {},
                }
                let p = self.publish(uri);
                out.push(p);
            },
            Message::DidSave { uri } => {
                let p = self.publish(uri);
                out.push(p);
            },
            Message::DidClose { uri } => {
                self.close(uri);
                let p = self.publish(uri);
                out.push(p);
            },
            Message::Hover { uri, line, character } => {
                let reply = match self.document(uri.as_str()) {
                    Some(text) => match hover_markdown(text.as_str(), *line, *character) {
                        Some(md) => Reply::Hover(md),
                        None => Reply::Null,
                    },
                    None => Reply::Null,
                };
                out.push(Outgoing::Response(reply));
            },
            Message::CodeAction { uri } => {
                let fixes = match self.document(uri.as_str()) {
                    Some(text) => {
                        let f = code_actions(text.as_str());
                        assert(actions_ok(text@, f@));
                        f
                    },
                    None => Vec::new(),
                };
                out.push(Outgoing::Response(Reply::CodeActions { uri: copy_string(uri), fixes }));
            },
            Message::Formatting { uri } => {
                let reply = match self.document(uri.as_str()) {
                    Some(text) => match format_source(text.as_str()) {
                        Ok(formatted) => {
                            let (line_count, last_line_len) = line_extent(text.as_str());
                            Reply::Formatting { formatted, line_count, last_line_len }
                        },
                        Err(_) => Reply::NoEdits,
                    },
                    None => Reply::NoEdits,
                };
                assert(format_reply_ok(doc_of(self.docs(), uri@), reply));
                out.push(Outgoing::Response(reply));
            },
            Message::Verify { uri } => {
                let reply = match self.document(uri.as_str()) {
                    Some(text) => match analyze(text.as_str()) {
                        Ok(reports) => {
                            let ok = all_settled(&reports);
                            Reply::VerifySummary { ok, reports }
                        },
                        Err(e) => Reply::VerifyError(e),
                    },
                    None => Reply::NotOpen,
                };
                out.push(Outgoing::Response(reply));
            },
            Message::Other { method, is_request } => {
                if *is_request {
                    let mut m = crate::text::string_of("method not found: ");
                    crate::text::push_str(&mut m, method.as_str());
                    out.push(Outgoing::Error { code: -32601, message: m });
                }
            },
        }
        out
    }
}

impl Default for Server {
    fn default() -> (r: Server)
        ensures
            r.docs() == Seq::<(Seq<char>, Seq<char>)>::empty(),
            !r.shutdown_requested(),
            !r.exit_requested(),
    {
        Server::new()
    }
}

/// Every function is verified or ejected.
fn all_settled(reports: &Vec<FuncReport>) -> (r: bool)
    ensures
        r == forall|i: int| 0 <= i < reports@.len() ==> (#[trigger] reports@[i]).verified || reports@[i].ejected,
{
    let mut i: usize = 0;
    while i < reports.len()
        invariant
            i <= reports@.len(),
            forall|j: int| 0 <= j < i ==> (#[trigger] reports@[j]).verified || reports@[j].ejected,
        decreases reports@.len() - i,
    {
        if !(reports[i].verified || reports[i].ejected) {
            return false;
        }
        i = i + 1;
    }
    true
}

fn utf8_width(c: char) -> (r: usize)
    ensures
        r as int == utf8_len(c),
{
    if (c as u32) < 0x80 { 1 } else if (c as u32) < 0x800 { 2 } else if (c as u32) < 0x10000 { 3 } else { 4 }
}

/// The number of lines of a text and the UTF-8 length of its last line.
fn line_extent(text: &str) -> (r: (usize, usize))
    ensures
        r.0 == lines_spec(text@).len(),
        r.1 == sat_usize(if lines_spec(text@).len() > 0 { utf8_len_of(lines_spec(text@).last()) } else { 0 }),
{
    let lines = crate::analysis::text_lines(text);
    let n = lines.len();
    if n == 0 {
        return (0, 0);
    }
    let last = &lines[n - 1];
    let mut len: usize = 0;
    let mut i: usize = 0;
    while i < last.len()
        invariant
            i <= last@.len(),
            len as int == sat_usize(utf8_len_of(last@.take(i as int))),
        decreases last@.len() - i,
    {
        assert(last@.take(i + 1).drop_last() =~= last@.take(i as int));
        proof { lemma_utf8_len_nonneg(last@.take(i as int)); }
        let w = utf8_width(last[i]);
        len = len.saturating_add(w);
        i = i + 1;
    }
    assert(last@.take(last@.len() as int) =~= last@);
    (n, len)
}

proof fn lemma_doc_of_at(ds: Seq<(Seq<char>, Seq<char>)>, i: int)
    requires
        distinct_uris(ds),
        0 <= i < ds.len(),
    ensures
        doc_of(ds, ds[i].0) == Some(ds[i].1),
    decreases ds.len(),
{
    if i < ds.len() - 1 {
        assert(ds.drop_last()[i] == ds[i]);
        lemma_doc_of_at(ds.drop_last(), i);
    }
}

proof fn lemma_doc_of_absent(ds: Seq<(Seq<char>, Seq<char>)>, uri: Seq<char>)
    requires
        forall|j: int| 0 <= j < ds.len() ==> ds[j].0 != uri,
    ensures
        doc_of(ds, uri) is None,
    decreases ds.len(),
{
    if ds.len() > 0 {
        assert(ds.last() == ds[ds.len() - 1]);
        assert forall|j: int| 0 <= j < ds.drop_last().len() implies ds.drop_last()[j].0 != uri by {
            assert(ds.drop_last()[j] == ds[j]);
        }
        lemma_doc_of_absent(ds.drop_last(), uri);
    }
}

proof fn lemma_doc_of_absent_all(ds: Seq<(Seq<char>, Seq<char>)>, uri: Seq<char>)
    requires
        doc_of(ds, uri) is None,
    ensures
        forall|j: int| 0 <= j < ds.len() ==> ds[j].0 != uri,
    decreases ds.len(),
{
    if ds.len() > 0 {
        lemma_doc_of_absent_all(ds.drop_last(), uri);
        assert forall|j: int| 0 <= j < ds.len() implies ds[j].0 != uri by {
            if j < ds.len() - 1 {
                assert(ds.drop_last()[j] == ds[j]);
            }
        }
    }
}

proof fn lemma_doc_of_update(ds: Seq<(Seq<char>, Seq<char>)>, i: int, t: Seq<char>)
    requires
        distinct_uris(ds),
        0 <= i < ds.len(),
    ensures
        doc_of(ds.update(i, (ds[i].0, t)), ds[i].0) == Some(t),
        forall|u: Seq<char>| u != ds[i].0 ==> doc_of(#[trigger] ds.update(i, (ds[i].0, t)), u) == doc_of(ds, u),
        distinct_uris(ds.update(i, (ds[i].0, t))),
    decreases ds.len(),
{
    let nd = ds.update(i, (ds[i].0, t));
    if i < ds.len() - 1 {
        assert(nd.drop_last() =~= ds.drop_last().update(i, (ds[i].0, t)));
        assert(ds.drop_last()[i] == ds[i]);
        lemma_doc_of_update(ds.drop_last(), i, t);
        assert(nd.last() == ds.last());
        assert forall|u: Seq<char>| u != ds[i].0 implies doc_of(#[trigger] ds.update(i, (ds[i].0, t)), u) == doc_of(ds, u) by {
            assert(doc_of(ds.drop_last().update(i, (ds[i].0, t)), u) == doc_of(ds.drop_last(), u));
        }
    } else {
        assert(nd.drop_last() =~= ds.drop_last());
        assert forall|u: Seq<char>| u != ds[i].0 implies doc_of(#[trigger] ds.update(i, (ds[i].0, t)), u) == doc_of(ds, u) by {
            assert(ds.last().0 == ds[i].0);
        }
    }
}

proof fn lemma_doc_of_remove(ds: Seq<(Seq<char>, Seq<char>)>, i: int)
    requires
        distinct_uris(ds),
        0 <= i < ds.len(),
    ensures
        doc_of(ds.remove(i), ds[i].0) is None,
        forall|u: Seq<char>| u != ds[i].0 ==> doc_of(#[trigger] ds.remove(i), u) == doc_of(ds, u),
        distinct_uris(ds.remove(i)),
    decreases ds.len(),
{
    let nd = ds.remove(i);
    if i < ds.len() - 1 {
        assert(nd.drop_last() =~= ds.drop_last().remove(i));
        assert(ds.drop_last()[i] == ds[i]);
        lemma_doc_of_remove(ds.drop_last(), i);
        assert(nd.last() == ds.last());
        assert forall|u: Seq<char>| u != ds[i].0 implies doc_of(#[trigger] ds.remove(i), u) == doc_of(ds, u) by {
            assert(doc_of(ds.drop_last().remove(i), u) == doc_of(ds.drop_last(), u));
        }
        assert forall|a: int, b: int| 0 <= a < b < nd.len() implies nd[a].0 != nd[b].0 by {
            if b < nd.len() - 1 {
                assert(nd[a] == nd.drop_last()[a] && nd[b] == nd.drop_last()[b]);
            } else {
                assert(nd[b] == ds.last());
                if a < i { assert(nd[a] == ds[a]); } else { assert(nd[a] == ds[a + 1]); }
            }
        }
    } else {
        assert(nd =~= ds.drop_last());
        assert forall|j: int| 0 <= j < nd.len() implies nd[j].0 != ds[i].0 by {
            assert(nd[j] == ds[j]);
        }
        lemma_doc_of_absent(nd, ds[i].0);
        assert forall|u: Seq<char>| u != ds[i].0 implies doc_of(#[trigger] ds.remove(i), u) == doc_of(ds, u) by {
            assert(ds.last().0 == ds[i].0);
        }
    }
}

} // verus!
