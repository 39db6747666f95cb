//! Tokenizer for Telos sources.
//!
//! Each token is tagged with the char offsets `(start, end)` of its text.
//! The token stream is fully characterised by [`lexed`]: tokens start at the
//! first character after whitespace and `//` comments, identifiers and
//! integers are maximal, and two-character operators win over their
//! one-character prefixes.

use vstd::prelude::*;
use crate::ast::Literal;
use crate::text::{chars_of, str_eq, string_from_chars, push_str, push_char, i64_text, usize_text, int_text};

verus! {

#[derive(Debug, Clone, PartialEq, Eq)]
pub enum Token {
    Ident(String),
    Int(i64),
    At,
    LParen,
    RParen,
    LBrace,
    RBrace,
    LSquare,
    RSquare,
    Comma,
    Colon,
    Dot,
    DotDot,
    Semicolon,
    Question,
    Arrow,
    FatArrow,
    Assign,
    PlusAssign,
    MinusAssign,
    Plus,
    Minus,
    Star,
    Slash,
    EqEq,
    Ne,
    Lt,
    Le,
    Gt,
    Ge,
    And,
    Or,
    UnderScore,
    KwModule,
    KwInvariant,
    KwFunc,
    KwRequires,
    KwEnsures,
    KwMutate,
    KwState,
    KwOld,
    KwLet,
    KwIf,
    KwElse,
    KwMatch,
    KwReturn,
    KwResult,
    KwOk,
    KwErr,
    KwForall,
    KwIn,
    KwMut,
    KwStruct,
    KwEnum,
    Eof,
}

/// A token with the char offsets `(start, end)` of its text.
pub type Spanned = (Token, usize, usize);

// ---------------------------------------------------------------------------
// Character classes
// ---------------------------------------------------------------------------

/// Unicode `White_Space`, as `char::is_whitespace` decides it.
pub open spec fn is_ws(c: char) -> bool {
    ||| c == ' '
    ||| ('\x09' <= c && c <= '\x0d')
    ||| c == '\u{85}'
    ||| c == '\u{a0}'
    ||| c == '\u{1680}'
    ||| ('\u{2000}' <= c && c <= '\u{200a}')
    ||| c == '\u{2028}'
    ||| c == '\u{2029}'
    ||| c == '\u{202f}'
    ||| c == '\u{205f}'
    ||| c == '\u{3000}'
}

pub open spec fn is_alpha(c: char) -> bool {
    ('a' <= c && c <= 'z') || ('A' <= c && c <= 'Z')
}

pub open spec fn is_digit(c: char) -> bool {
    '0' <= c && c <= '9'
}

pub open spec fn is_ident_start(c: char) -> bool {
    is_alpha(c) || c == '_'
}

pub open spec fn is_ident_continue(c: char) -> bool {
    is_alpha(c) || is_digit(c) || c == '_'
}

pub(crate) fn ws(c: char) -> (r: bool)
    ensures
        r == is_ws(c),
{
    c == ' ' || ('\x09' <= c && c <= '\x0d') || c == '\u{85}' || c == '\u{a0}' || c == '\u{1680}'
        || ('\u{2000}' <= c && c <= '\u{200a}') || c == '\u{2028}' || c == '\u{2029}'
        || c == '\u{202f}' || c == '\u{205f}' || c == '\u{3000}'
}

fn alpha(c: char) -> (r: bool)
    ensures
        r == is_alpha(c),
{
    ('a' <= c && c <= 'z') || ('A' <= c && c <= 'Z')
}

fn digit(c: char) -> (r: bool)
    ensures
        r == is_digit(c),
{
    '0' <= c && c <= '9'
}

// ---------------------------------------------------------------------------
// The token language
// ---------------------------------------------------------------------------

/// First position `>= i` holding a newline, or `s.len()`.
pub open spec fn line_end(s: Seq<char>, i: int) -> int
    decreases s.len() - i,
{
    if i >= s.len() || s[i] == '\n' {
        i
    } else {
        line_end(s, i + 1)
    }
}

/// First position `>= i` that is not whitespace and not inside a `//` comment.
pub open spec fn skip_gap(s: Seq<char>, i: int) -> int
    decreases s.len() - i,
{
    if i >= s.len() || i < 0 {
        i
    } else if is_ws(s[i]) {
        skip_gap(s, i + 1)
    } else if s[i] == '/' && i + 1 < s.len() && s[i + 1] == '/' {
        let e = line_end(s, i + 2);
        if i < e && e <= s.len() { skip_gap(s, e) } else { i }
    } else {
        i
    }
}

/// First position `>= i` not holding an identifier character.
pub open spec fn ident_end(s: Seq<char>, i: int) -> int
    decreases s.len() - i,
{
    if i >= s.len() || i < 0 || !is_ident_continue(s[i]) {
        i
    } else {
        ident_end(s, i + 1)
    }
}

/// First position `>= i` not holding a decimal digit.
pub open spec fn digit_end(s: Seq<char>, i: int) -> int
    decreases s.len() - i,
{
    if i >= s.len() || i < 0 || !is_digit(s[i]) {
        i
    } else {
        digit_end(s, i + 1)
    }
}

/// Value of a run of decimal digits.
pub open spec fn dec_value(s: Seq<char>) -> int
    decreases s.len(),
{
    if s.len() == 0 {
        0
    } else {
        dec_value(s.drop_last()) * 10 + (s.last() as int - '0' as int)
    }
}

/// The keyword spelled by `w`, if any.
pub open spec fn keyword_of(w: Seq<char>) -> Option<Token> {
    if w == "module"@ { Some(Token::KwModule) }
    else if w == "invariant"@ { Some(Token::KwInvariant) }
    else if w == "func"@ { Some(Token::KwFunc) }
    else if w == "requires"@ { Some(Token::KwRequires) }
    else if w == "ensures"@ { Some(Token::KwEnsures) }
    else if w == "mutate"@ { Some(Token::KwMutate) }
    else if w == "state"@ { Some(Token::KwState) }
    else if w == "old"@ { Some(Token::KwOld) }
    else if w == "let"@ { Some(Token::KwLet) }
    else if w == "if"@ { Some(Token::KwIf) }
    else if w == "else"@ { Some(Token::KwElse) }
    else if w == "match"@ { Some(Token::KwMatch) }
    else if w == "return"@ { Some(Token::KwReturn) }
    else if w == "Result"@ { Some(Token::KwResult) }
    else if w == "Ok"@ { Some(Token::KwOk) }
    else if w == "Err"@ { Some(Token::KwErr) }
    else if w == "forall"@ { Some(Token::KwForall) }
    else if w == "in"@ { Some(Token::KwIn) }
    else if w == "mut"@ { Some(Token::KwMut) }
    else if w == "struct"@ { Some(Token::KwStruct) }
    else if w == "enum"@ { Some(Token::KwEnum) }
    else if w == "_"@ { Some(Token::UnderScore) }
    else { None }
}

/// The two-character operator spelled `a b`, if any.
pub open spec fn two_char_op(a: char, b: char) -> Option<Token> {
    if a == '+' && b == '=' { Some(Token::PlusAssign) }
    else if a == '-' && b == '=' { Some(Token::MinusAssign) }
    else if a == '-' && b == '>' { Some(Token::Arrow) }
    else if a == '=' && b == '=' { Some(Token::EqEq) }
    else if a == '=' && b == '>' { Some(Token::FatArrow) }
    else if a == '!' && b == '=' { Some(Token::Ne) }
    else if a == '<' && b == '=' { Some(Token::Le) }
    else if a == '>' && b == '=' { Some(Token::Ge) }
    else if a == '&' && b == '&' { Some(Token::And) }
    else if a == '|' && b == '|' { Some(Token::Or) }
    else if a == '.' && b == '.' { Some(Token::DotDot) }
    else { None }
}

/// The one-character token spelled `c`, if any.
pub open spec fn one_char_op(c: char) -> Option<Token> {
    if c == '@' { Some(Token::At) }
    else if c == '(' { Some(Token::LParen) }
    else if c == ')' { Some(Token::RParen) }
    else if c == '{' { Some(Token::LBrace) }
    else if c == '}' { Some(Token::RBrace) }
    else if c == '[' { Some(Token::LSquare) }
    else if c == ']' { Some(Token::RSquare) }
    else if c == ',' { Some(Token::Comma) }
    else if c == ':' { Some(Token::Colon) }
    else if c == '.' { Some(Token::Dot) }
    else if c == ';' { Some(Token::Semicolon) }
    else if c == '?' { Some(Token::Question) }
    else if c == '=' { Some(Token::Assign) }
    else if c == '+' { Some(Token::Plus) }
    else if c == '-' { Some(Token::Minus) }
    else if c == '*' { Some(Token::Star) }
    else if c == '/' { Some(Token::Slash) }
    else if c == '<' { Some(Token::Lt) }
    else if c == '>' { Some(Token::Gt) }
    else { None }
}

/// `t` is the token whose text is `s[start..end]`, read maximally at `start`.
pub open spec fn token_at(s: Seq<char>, start: int, end: int, t: Token) -> bool {
    &&& 0 <= start < end <= s.len()
    &&& if is_ident_start(s[start]) {
        &&& end == ident_end(s, start)
        &&& match keyword_of(s.subrange(start, end)) {
            Some(k) => t == k,
            None => t matches Token::Ident(name) && name@ == s.subrange(start, end),
        }
    } else if is_digit(s[start]) {
        &&& end == digit_end(s, start)
        &&& t matches Token::Int(n) && n as int == dec_value(s.subrange(start, end))
    } else if start + 1 < s.len() && two_char_op(s[start], s[start + 1]) is Some {
        &&& end == start + 2
        &&& Some(t) == two_char_op(s[start], s[start + 1])
    } else {
        &&& end == start + 1
        &&& Some(t) == one_char_op(s[start])
    }
}

/// Where the token after `toks[..k]` starts scanning.
pub open spec fn scan_from(toks: Seq<Spanned>, k: int) -> int {
    if k == 0 { 0 } else { toks[k - 1].2 as int }
}

/// `toks` is the token stream of `s`: each token begins after skipping
/// whitespace and comments from where the previous one ended, is read
/// maximally, and the stream ends with `Eof` at `s.len()`.
pub open spec fn lexed(s: Seq<char>, toks: Seq<Spanned>) -> bool {
    &&& toks.len() > 0
    &&& forall|k: int| 0 <= k < toks.len() - 1 ==> {
        &&& #[trigger] toks[k].1 == skip_gap(s, scan_from(toks, k))
        &&& token_at(s, toks[k].1 as int, toks[k].2 as int, toks[k].0)
    }
    &&& toks.last() == (Token::Eof, s.len() as usize, s.len() as usize)
    &&& skip_gap(s, scan_from(toks, toks.len() - 1)) == s.len()
}

/// Every token of `s` from position `i` on can be read: no unexpected
/// character, and no integer literal above `i64::MAX`.
pub open spec fn lex_ok_from(s: Seq<char>, i: int) -> bool
    decreases s.len() - i,
{
    if i < 0 || i >= s.len() {
        true
    } else {
        let p = skip_gap(s, i);
        if p < i || p >= s.len() {
            true
        } else if is_ident_start(s[p]) {
            let e = ident_end(s, p);
            p < e <= s.len() && lex_ok_from(s, e)
        } else if is_digit(s[p]) {
            let e = digit_end(s, p);
            p < e <= s.len() && dec_value(s.subrange(p, e)) <= i64::MAX && lex_ok_from(s, e)
        } else if p + 1 < s.len() && two_char_op(s[p], s[p + 1]) is Some {
            lex_ok_from(s, p + 2)
        } else {
            one_char_op(s[p]) is Some && lex_ok_from(s, p + 1)
        }
    }
}

/// The error for the first token of `s` from `i` on that cannot be read:
/// an integer literal above `i64::MAX`, or a character that starts no
/// token (reported with its offset). Empty when every token reads.
pub open spec fn lex_error_from(s: Seq<char>, i: int) -> Seq<char>
    decreases s.len() - i,
{
    if i < 0 || i >= s.len() {
        Seq::empty()
    } else {
        let p = skip_gap(s, i);
        if p < i || p >= s.len() {
            Seq::empty()
        } else if is_ident_start(s[p]) {
            let e = ident_end(s, p);
            if p < e <= s.len() { lex_error_from(s, e) } else { Seq::empty() }
        } else if is_digit(s[p]) {
            let e = digit_end(s, p);
            if !(p < e <= s.len()) {
                Seq::empty()
            } else if dec_value(s.subrange(p, e)) > i64::MAX {
                "line/col: integer literal `"@ + s.subrange(p, e) + "` out of range"@
            } else {
                lex_error_from(s, e)
            }
        } else if p + 1 < s.len() && two_char_op(s[p], s[p + 1]) is Some {
            lex_error_from(s, p + 2)
        } else if one_char_op(s[p]) is Some {
            lex_error_from(s, p + 1)
        } else {
            "unexpected character `"@ + seq![s[p]] + "` at offset "@ + crate::text::nat_digits(p as nat)
        }
    }
}

// ---------------------------------------------------------------------------
// Lemmas
// ---------------------------------------------------------------------------

proof fn lemma_line_end_bounds(s: Seq<char>, i: int)
    requires
        0 <= i <= s.len(),
    ensures
        i <= line_end(s, i) <= s.len(),
        forall|j: int| i <= j < line_end(s, i) ==> s[j] != '\n',
    decreases s.len() - i,
{
    if i < s.len() && s[i] != '\n' {
        lemma_line_end_bounds(s, i + 1);
    }
}

proof fn lemma_skip_gap_bounds(s: Seq<char>, i: int)
    requires
        0 <= i <= s.len(),
    ensures
        i <= skip_gap(s, i) <= s.len(),
    decreases s.len() - i,
{
    if i < s.len() {
        if is_ws(s[i]) {
            lemma_skip_gap_bounds(s, i + 1);
        } else if s[i] == '/' && i + 1 < s.len() && s[i + 1] == '/' {
            lemma_line_end_bounds(s, i + 2);
            lemma_skip_gap_bounds(s, line_end(s, i + 2));
        }
    }
}

proof fn lemma_ident_end_bounds(s: Seq<char>, i: int)
    requires
        0 <= i <= s.len(),
    ensures
        i <= ident_end(s, i) <= s.len(),
        forall|j: int| i <= j < ident_end(s, i) ==> is_ident_continue(s[j]),
    decreases s.len() - i,
{
    if i < s.len() && is_ident_continue(s[i]) {
        lemma_ident_end_bounds(s, i + 1);
    }
}

pub proof fn lemma_digit_end_bounds(s: Seq<char>, i: int)
    requires
        0 <= i <= s.len(),
    ensures
        i <= digit_end(s, i) <= s.len(),
        forall|j: int| i <= j < digit_end(s, i) ==> is_digit(s[j]),
    decreases s.len() - i,
{
    if i < s.len() && is_digit(s[i]) {
        lemma_digit_end_bounds(s, i + 1);
    }
}

pub proof fn lemma_dec_value_nonneg(s: Seq<char>)
    requires
        forall|j: int| 0 <= j < s.len() ==> is_digit(s[j]),
    ensures
        dec_value(s) >= 0,
    decreases s.len(),
{
    if s.len() > 0 {
        lemma_dec_value_nonneg(s.drop_last());
    }
}

proof fn lemma_dec_value_prefix(s: Seq<char>, k: int)
    requires
        0 <= k <= s.len(),
        forall|j: int| 0 <= j < s.len() ==> is_digit(s[j]),
    ensures
        dec_value(s.take(k)) <= dec_value(s),
    decreases s.len(),
{
    if k < s.len() {
        assert(s.drop_last().take(k) == s.take(k));
        lemma_dec_value_prefix(s.drop_last(), k);
        lemma_dec_value_nonneg(s.drop_last());
    } else {
        assert(s.take(k) == s);
    }
}

// ---------------------------------------------------------------------------
// Executable lexer
// ---------------------------------------------------------------------------

fn keyword(w: &str) -> (r: Option<Token>)
    ensures
        r == keyword_of(w@),
{
    if str_eq(w, "module") { Some(Token::KwModule) }
    else if str_eq(w, "invariant") { Some(Token::KwInvariant) }
    else if str_eq(w, "func") { Some(Token::KwFunc) }
    else if str_eq(w, "requires") { Some(Token::KwRequires) }
    else if str_eq(w, "ensures") { Some(Token::KwEnsures) }
    else if str_eq(w, "mutate") { Some(Token::KwMutate) }
    else if str_eq(w, "state") { Some(Token::KwState) }
    else if str_eq(w, "old") { Some(Token::KwOld) }
    else if str_eq(w, "let") { Some(Token::KwLet) }
    else if str_eq(w, "if") { Some(Token::KwIf) }
    else if str_eq(w, "else") { Some(Token::KwElse) }
    else if str_eq(w, "match") { Some(Token::KwMatch) }
    else if str_eq(w, "return") { Some(Token::KwReturn) }
    else if str_eq(w, "Result") { Some(Token::KwResult) }
    else if str_eq(w, "Ok") { Some(Token::KwOk) }
    else if str_eq(w, "Err") { Some(Token::KwErr) }
    else if str_eq(w, "forall") { Some(Token::KwForall) }
    else if str_eq(w, "in") { Some(Token::KwIn) }
    else if str_eq(w, "mut") { Some(Token::KwMut) }
    else if str_eq(w, "struct") { Some(Token::KwStruct) }
    else if str_eq(w, "enum") { Some(Token::KwEnum) }
    else if str_eq(w, "_") { Some(Token::UnderScore) }
    else { None }
}

fn two_char(a: char, b: char) -> (r: Option<Token>)
    ensures
        r == two_char_op(a, b),
{
    if a == '+' && b == '=' { Some(Token::PlusAssign) }
    else if a == '-' && b == '=' { Some(Token::MinusAssign) }
    else if a == '-' && b == '>' { Some(Token::Arrow) }
    else if a == '=' && b == '=' { Some(Token::EqEq) }
    else if a == '=' && b == '>' { Some(Token::FatArrow) }
    else if a == '!' && b == '=' { Some(Token::Ne) }
    else if a == '<' && b == '=' { Some(Token::Le) }
    else if a == '>' && b == '=' { Some(Token::Ge) }
    else if a == '&' && b == '&' { Some(Token::And) }
    else if a == '|' && b == '|' { Some(Token::Or) }
    else if a == '.' && b == '.' { Some(Token::DotDot) }
    else { None }
}

fn one_char(c: char) -> (r: Option<Token>)
    ensures
        r == one_char_op(c),
{
    if c == '@' { Some(Token::At) }
    else if c == '(' { Some(Token::LParen) }
    else if c == ')' { Some(Token::RParen) }
    else if c == '{' { Some(Token::LBrace) }
    else if c == '}' { Some(Token::RBrace) }
    else if c == '[' { Some(Token::LSquare) }
    else if c == ']' { Some(Token::RSquare) }
    else if c == ',' { Some(Token::Comma) }
    else if c == ':' { Some(Token::Colon) }
    else if c == '.' { Some(Token::Dot) }
    else if c == ';' { Some(Token::Semicolon) }
    else if c == '?' { Some(Token::Question) }
    else if c == '=' { Some(Token::Assign) }
    else if c == '+' { Some(Token::Plus) }
    else if c == '-' { Some(Token::Minus) }
    else if c == '*' { Some(Token::Star) }
    else if c == '/' { Some(Token::Slash) }
    else if c == '<' { Some(Token::Lt) }
    else if c == '>' { Some(Token::Gt) }
    else { None }
}

/// Copy of `v[from..to]`.
fn slice_chars(v: &Vec<char>, from: usize, to: usize) -> (r: Vec<char>)
    requires
        from <= to <= v.len(),
    ensures
        r@ == v@.subrange(from as int, to as int),
{
    let mut out: Vec<char> = Vec::new();
    let mut i = from;
    while i < to
        invariant
            from <= i <= to <= v.len(),
            out@ == v@.subrange(from as int, i as int),
        decreases to - i,
    {
        out.push(v[i]);
        assert(v@.subrange(from as int, i as int).push(v@[i as int]) == v@.subrange(from as int, i + 1));
        i = i + 1;
    }
    out
}

/// Value of the digit run `v[from..to]`, or `None` when it exceeds `i64::MAX`.
fn digits_value(v: &Vec<char>, from: usize, to: usize) -> (r: Option<i64>)
    requires
        from <= to <= v.len(),
        forall|j: int| from <= j < to ==> is_digit(v@[j]),
    ensures
        r matches Some(n) ==> n as int == dec_value(v@.subrange(from as int, to as int)),
        r is None ==> dec_value(v@.subrange(from as int, to as int)) > i64::MAX,
{
    let ghost full = v@.subrange(from as int, to as int);
    let mut acc: u128 = 0;
    let mut i = from;
    while i < to
        invariant
            from <= i <= to <= v.len(),
            forall|j: int| from <= j < to ==> is_digit(v@[j]),
            full == v@.subrange(from as int, to as int),
            acc as int == dec_value(v@.subrange(from as int, i as int)),
            acc <= i64::MAX,
        decreases to - i,
    {
        let d = (v[i] as u32 - '0' as u32) as u128;
        assert(v@.subrange(from as int, i + 1).drop_last() == v@.subrange(from as int, i as int));
        acc = acc * 10 + d;
        if acc > i64::MAX as u128 {
            proof {
                assert(full.take(i + 1 - from) == v@.subrange(from as int, i + 1));
                lemma_dec_value_prefix(full, i + 1 - from);
            }
            return None;
        }
        i = i + 1;
    }
    Some(acc as i64)
}

/// The human-readable description of a token used in error messages.
pub open spec fn describe_spec(t: Token) -> Seq<char> {
    match t {
        Token::Ident(s) => "identifier `"@ + s@ + "`"@,
        Token::Int(n) => "integer `"@ + int_text(n as int) + "`"@,
        _ => "`"@ + punct_text(t) + "`"@,
    }
}

/// The spelling of a keyword or punctuation token.
pub open spec fn punct_text(t: Token) -> Seq<char> {
    match t {
        Token::At => "@"@,
        Token::LParen => "("@,
        Token::RParen => ")"@,
        Token::LBrace => "{"@,
        Token::RBrace => "}"@,
        Token::LSquare => "["@,
        Token::RSquare => "]"@,
        Token::Comma => ","@,
        Token::Colon => ":"@,
        Token::Dot => "."@,
        Token::DotDot => ".."@,
        Token::Semicolon => ";"@,
        Token::Question => "?"@,
        Token::Arrow => "->"@,
        Token::FatArrow => "=>"@,
        Token::Assign => "="@,
        Token::PlusAssign => "+="@,
        Token::MinusAssign => "-="@,
        Token::Plus => "+"@,
        Token::Minus => "-"@,
        Token::Star => "*"@,
        Token::Slash => "/"@,
        Token::EqEq => "=="@,
        Token::Ne => "!="@,
        Token::Lt => "<"@,
        Token::Le => "<="@,
        Token::Gt => ">"@,
        Token::Ge => ">="@,
        Token::And => "&&"@,
        Token::Or => "||"@,
        Token::UnderScore => "_"@,
        Token::KwModule => "module"@,
        Token::KwInvariant => "invariant"@,
        Token::KwFunc => "func"@,
        Token::KwRequires => "requires"@,
        Token::KwEnsures => "ensures"@,
        Token::KwMutate => "mutate"@,
        Token::KwState => "state"@,
        Token::KwOld => "old"@,
        Token::KwLet => "let"@,
        Token::KwIf => "if"@,
        Token::KwElse => "else"@,
        Token::KwMatch => "match"@,
        Token::KwReturn => "return"@,
        Token::KwResult => "Result"@,
        Token::KwOk => "Ok"@,
        Token::KwErr => "Err"@,
        Token::KwForall => "forall"@,
        Token::KwIn => "in"@,
        Token::KwMut => "mut"@,
        Token::KwStruct => "struct"@,
        Token::KwEnum => "enum"@,
        Token::Eof => "end of file"@,
        _ => ""@,
    }
}

fn punct(t: &Token) -> (r: &'static str)
    ensures
        r@ == punct_text(*t),
{
    match t {
        Token::At => "@",
        Token::LParen => "(",
        Token::RParen => ")",
        Token::LBrace => "{",
        Token::RBrace => "}",
        Token::LSquare => "[",
        Token::RSquare => "]",
        Token::Comma => ",",
        Token::Colon => ":",
        Token::Dot => ".",
        Token::DotDot => "..",
        Token::Semicolon => ";",
        Token::Question => "?",
        Token::Arrow => "->",
        Token::FatArrow => "=>",
        Token::Assign => "=",
        Token::PlusAssign => "+=",
        Token::MinusAssign => "-=",
        Token::Plus => "+",
        Token::Minus => "-",
        Token::Star => "*",
        Token::Slash => "/",
        Token::EqEq => "==",
        Token::Ne => "!=",
        Token::Lt => "<",
        Token::Le => "<=",
        Token::Gt => ">",
        Token::Ge => ">=",
        Token::And => "&&",
        Token::Or => "||",
        Token::UnderScore => "_",
        Token::KwModule => "module",
        Token::KwInvariant => "invariant",
        Token::KwFunc => "func",
        Token::KwRequires => "requires",
        Token::KwEnsures => "ensures",
        Token::KwMutate => "mutate",
        Token::KwState => "state",
        Token::KwOld => "old",
        Token::KwLet => "let",
        Token::KwIf => "if",
        Token::KwElse => "else",
        Token::KwMatch => "match",
        Token::KwReturn => "return",
        Token::KwResult => "Result",
        Token::KwOk => "Ok",
        Token::KwErr => "Err",
        Token::KwForall => "forall",
        Token::KwIn => "in",
        Token::KwMut => "mut",
        Token::KwStruct => "struct",
        Token::KwEnum => "enum",
        Token::Eof => "end of file",
        _ => "",
    }
}

impl Token {
    /// The description used in diagnostics, e.g. ``identifier `x` `` or
    /// `` `(` ``.
    pub fn describe(&self) -> (r: String)
        ensures
            r@ == describe_spec(*self),
    {
        let mut s = String::new();
        match self {
            Token::Ident(name) => {
                push_str(&mut s, "identifier `");
                push_str(&mut s, name.as_str());
                push_str(&mut s, "`");
            },
            Token::Int(n) => {
                push_str(&mut s, "integer `");
                let t = i64_text(*n);
                push_str(&mut s, t.as_str());
                push_str(&mut s, "`");
            },
            _ => {
                push_str(&mut s, "`");
                push_str(&mut s, punct(self));
                push_str(&mut s, "`");
            },
        }
        s
    }
}

/// Tokenize `src`.
///
/// On success the result is the token stream described by [`lexed`]. An
/// unexpected character, or an integer literal above `i64::MAX`, is an error.
pub fn lex(src: &str) -> (r: Result<Vec<Spanned>, String>)
    ensures
        r matches Ok(toks) ==> lexed(src@, toks@),
        r is Ok <==> lex_ok_from(src@, 0),
        r matches Err(e) ==> e@ == lex_error_from(src@, 0),
{
    let chars = chars_of(src);
    let n = chars.len();
    let mut i: usize = 0;
    let mut tokens: Vec<Spanned> = Vec::new();
    // Position from which the gap before the next token is scanned.
    let mut g: usize = 0;

    while i < n
        invariant
            chars@ == src@,
            n == chars@.len(),
            g <= i <= n,
            skip_gap(chars@, g as int) == skip_gap(chars@, i as int),
            g == scan_from(tokens@, tokens@.len() as int),
            lex_ok_from(chars@, 0) == lex_ok_from(chars@, g as int),
            lex_error_from(chars@, 0) == lex_error_from(chars@, g as int),
            forall|k: int| 0 <= k < tokens@.len() ==> {
                &&& #[trigger] tokens@[k].1 == skip_gap(chars@, scan_from(tokens@, k))
                &&& token_at(chars@, tokens@[k].1 as int, tokens@[k].2 as int, tokens@[k].0)
            },
        decreases n - i,
    {
        let c = chars[i];

        // whitespace
        if ws(c) {
            i = i + 1;
            continue;
        }

        // line comment
        if c == '/' && i + 1 < n && chars[i + 1] == '/' {
            let ghost start = i;
            let mut j = i + 2;
            while j < n && chars[j] != '\n'
                invariant
                    start + 2 <= j <= n,
                    n == chars@.len(),
                    line_end(chars@, start + 2) == line_end(chars@, j as int),
                decreases n - j,
            {
                j = j + 1;
            }
            i = j;
            continue;
        }

        let start = i;
        proof {
            assert(skip_gap(chars@, start as int) == start as int);
            assert(skip_gap(chars@, g as int) == start as int);
            lemma_ident_end_bounds(chars@, start + 1);
            lemma_digit_end_bounds(chars@, start + 1);
        }

        // identifiers / keywords
        if alpha(c) || c == '_' {
            let mut j = i;
            while j < n && (alpha(chars[j]) || digit(chars[j]) || chars[j] == '_')
                invariant
                    start <= j <= n,
                    n == chars@.len(),
                    ident_end(chars@, start as int) == ident_end(chars@, j as int),
                decreases n - j,
            {
                j = j + 1;
            }
            let word = slice_chars(&chars, start, j);
            let w = string_from_chars(&word);
            let kw = keyword(w.as_str());
            let tok = match kw {
                Some(k) => k,
                None => Token::Ident(w),
            };
            tokens.push((tok, start, j));
            i = j;
            g = j;
            continue;
        }

        // integers
        if digit(c) {
            let mut j = i;
            while j < n && digit(chars[j])
                invariant
                    start <= j <= n,
                    n == chars@.len(),
                    digit_end(chars@, start as int) == digit_end(chars@, j as int),
                    forall|k: int| start <= k < j ==> is_digit(chars@[k]),
                decreases n - j,
            {
                j = j + 1;
            }
            match digits_value(&chars, start, j) {
                Some(v) => {
                    tokens.push((Token::Int(v), start, j));
                },
                None => {
                    let digits = slice_chars(&chars, start, j);
                    let text = string_from_chars(&digits);
                    let mut msg = String::new();
                    push_str(&mut msg, "line/col: integer literal `");
                    push_str(&mut msg, text.as_str());
                    push_str(&mut msg, "` out of range");
                    return Err(msg);
                },
            }
            i = j;
            g = j;
            continue;
        }

        // two-character operators
        if i + 1 < n {
            if let Some(t) = two_char(c, chars[i + 1]) {
                tokens.push((t, start, i + 2));
                i = i + 2;
                g = i;
                continue;
            }
        }

        // single-character tokens
        match one_char(c) {
            Some(t) => {
                tokens.push((t, start, i + 1));
                i = i + 1;
                g = i;
            },
            None => {
                let mut msg = String::new();
                push_str(&mut msg, "unexpected character `");
                push_char(&mut msg, c);
                push_str(&mut msg, "` at offset ");
                let off = usize_text(start);
                push_str(&mut msg, off.as_str());
                return Err(msg);
            },
        }
    }

    proof {
        if g < n {
            assert(skip_gap(chars@, g as int) == n);
        }
    }
    tokens.push((Token::Eof, n, n));
    Ok(tokens)
}

/// Helper used by the parser to turn an INT token into a literal when needed.
pub fn int_to_literal(tok: &Token) -> (r: Option<Literal>)
    ensures
        r == (match *tok {
            Token::Int(n) => Some(Literal::Int(n)),
            _ => None,
        }),
{
    match tok {
        Token::Int(n) => Some(Literal::Int(*n)),
        _ => None,
    }
}

} // verus!
