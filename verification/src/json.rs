//! A small recursive-descent JSON reader.
//!
//! Constraint groups arrive as JSON. This reader produces a [`JsonValue`]
//! tree; errors carry the char offset where reading failed, which
//! [`JsonError::display`] turns into a 1-based `line:col`.
//!
//! Numbers are kept exactly: a number is either an integer that fits in an
//! `i64`, an integer beyond that range (with its sign), or a value with a
//! fractional part.

use vstd::prelude::*;
use crate::lexer::{is_ws, is_digit, ws};
use crate::span::{LineIndex, line_starts_spec};
use crate::text::{chars_of, push_str, push_char, usize_text, nat_digits};

verus! {

// ---------------------------------------------------------------------------
// Values
// ---------------------------------------------------------------------------

/// An exact JSON number.
#[derive(Debug, Clone, Copy, PartialEq, Eq, Structural)]
pub enum JsonNumber {
    /// An integral value within `i64`.
    Int(i64),
    /// An integral value beyond `i64`; `true` when negative.
    Big(bool),
    /// A value with a nonzero fractional part.
    Fraction,
}

/// A parsed JSON value. Object fields keep document order.
#[derive(Debug, PartialEq)]
pub enum JsonValue {
    Null,
    Bool(bool),
    Number(JsonNumber),
    Str(String),
    Array(Vec<JsonValue>),
    Object(Vec<(String, JsonValue)>),
}

/// The mathematical content of a [`JsonValue`].
pub enum JsonV {
    Null,
    Bool(bool),
    Number(JsonNumber),
    Str(Seq<char>),
    Array(Seq<JsonV>),
    Object(Seq<(Seq<char>, JsonV)>),
}

pub open spec fn jv(v: JsonValue) -> JsonV
    decreases v,
{
    match v {
        JsonValue::Null => JsonV::Null,
        JsonValue::Bool(b) => JsonV::Bool(b),
        JsonValue::Number(n) => JsonV::Number(n),
        JsonValue::Str(s) => JsonV::Str(s@),
        JsonValue::Array(items) => JsonV::Array(Seq::new(items@.len(), |i: int| if 0 <= i < items@.len() { jv(items@[i]) } else { JsonV::Null })),
        JsonValue::Object(fs) => JsonV::Object(Seq::new(fs@.len(), |i: int| if 0 <= i < fs@.len() { (fs@[i].0@, jv(fs@[i].1)) } else { (Seq::empty(), JsonV::Null) })),
    }
}

pub open spec fn jv_items(items: Seq<JsonValue>) -> Seq<JsonV> {
    Seq::new(items.len(), |i: int| jv(items[i]))
}

pub open spec fn jv_fields(fs: Seq<(String, JsonValue)>) -> Seq<(Seq<char>, JsonV)> {
    Seq::new(fs.len(), |i: int| (fs[i].0@, jv(fs[i].1)))
}

/// The first field of an object named `key`, if any.
pub open spec fn field_of(fs: Seq<(Seq<char>, JsonV)>, key: Seq<char>) -> Option<JsonV>
    decreases fs.len(),
{
    if fs.len() == 0 {
        None
    } else if fs[0].0 == key {
        Some(fs[0].1)
    } else {
        field_of(fs.drop_first(), key)
    }
}

// ---------------------------------------------------------------------------
// The grammar, as functions from a position to a result and an end position
// ---------------------------------------------------------------------------

/// A reading result: the value read and the position after it, or an error
/// offset and message.
pub type PRes<T> = Result<(T, int), (int, Seq<char>)>;

/// The first position `>= p` that is not whitespace.
pub open spec fn skip_ws_spec(s: Seq<char>, p: int) -> int
    decreases s.len() - p,
{
    if 0 <= p < s.len() && is_ws(s[p]) {
        skip_ws_spec(s, p + 1)
    } else {
        p
    }
}

/// The first position `>= p` that is not an ASCII digit.
pub open spec fn digits_end(s: Seq<char>, p: int) -> int
    decreases s.len() - p,
{
    if 0 <= p < s.len() && is_digit(s[p]) {
        digits_end(s, p + 1)
    } else {
        p
    }
}

pub open spec fn digit_val(c: char) -> int {
    c as int - '0' as int
}

/// The value of a string of decimal digits.
pub open spec fn digits_val(ds: Seq<char>) -> nat
    decreases ds.len(),
{
    if ds.len() == 0 {
        0
    } else {
        (digits_val(ds.drop_last()) * 10 + digit_val(ds.last())) as nat
    }
}

/// How many `'0'` characters end `ds`.
pub open spec fn trailing_zeros(ds: Seq<char>) -> nat
    decreases ds.len(),
{
    if ds.len() > 0 && ds.last() == '0' {
        trailing_zeros(ds.drop_last()) + 1
    } else {
        0
    }
}

pub open spec fn pow10(n: nat) -> nat
    decreases n,
{
    if n == 0 {
        1
    } else {
        10 * pow10((n - 1) as nat)
    }
}

/// The number `(-1)^neg * digits * 10^(exp - frac_len)`, where `digits` are
/// the integer and fraction digits together. With the trailing zeros of
/// `digits` moved into the exponent, the significand `core` is zero or not
/// a multiple of ten, so the number is integral exactly when `core` is zero
/// or the exponent is not negative.
pub open spec fn number_value(neg: bool, digits: Seq<char>, frac_len: int, exp: int) -> JsonNumber {
    let z = trailing_zeros(digits);
    let core = digits_val(digits.take(digits.len() - z));
    let e = exp - frac_len + z;
    if core == 0 {
        JsonNumber::Int(0)
    } else if e < 0 {
        JsonNumber::Fraction
    } else {
        let mag = core * pow10(e as nat);
        if neg {
            if mag <= 0x8000_0000_0000_0000 { JsonNumber::Int(-mag as i64) } else { JsonNumber::Big(true) }
        } else {
            if mag <= i64::MAX { JsonNumber::Int(mag as i64) } else { JsonNumber::Big(false) }
        }
    }
}

/// A number starting at `p` (at `-` or a digit).
pub open spec fn number_spec(s: Seq<char>, p: int) -> PRes<JsonNumber> {
    let neg = 0 <= p < s.len() && s[p] == '-';
    let a = if neg { p + 1 } else { p };
    let b = digits_end(s, a);
    let has_frac = 0 <= b < s.len() && s[b] == '.';
    let d = if has_frac { digits_end(s, b + 1) } else { b };
    let has_exp = 0 <= d < s.len() && (s[d] == 'e' || s[d] == 'E');
    let exp_neg = has_exp && d + 1 < s.len() && s[d + 1] == '-';
    let f = if has_exp && d + 1 < s.len() && (s[d + 1] == '+' || s[d + 1] == '-') { d + 2 } else { d + 1 };
    let g = if has_exp { digits_end(s, f) } else { d };
    if b == a {
        Err((p, "invalid number: no digits"@))
    } else if has_frac && d == b + 1 {
        Err((p, "invalid number: '.' without fraction"@))
    } else if has_exp && g == f {
        Err((p, "invalid number: exponent without digits"@))
    } else {
        let frac = if has_frac { s.subrange(b + 1, d) } else { Seq::empty() };
        let ev = if has_exp { digits_val(s.subrange(f, g)) as int } else { 0 };
        let exp = if exp_neg { -ev } else { ev };
        Ok((number_value(neg, s.subrange(a, b) + frac, frac.len() as int, exp), g))
    }
}

pub open spec fn hex_val(c: char) -> Option<int> {
    if '0' <= c && c <= '9' {
        Some(c as int - '0' as int)
    } else if 'a' <= c && c <= 'f' {
        Some(c as int - 'a' as int + 10)
    } else if 'A' <= c && c <= 'F' {
        Some(c as int - 'A' as int + 10)
    } else {
        None
    }
}

/// The last `4 - k` hex digits of a `\u` escape whose digits start at `p`,
/// after the first `k` gave `acc`.
pub open spec fn hex_from(s: Seq<char>, p: int, k: int, acc: int) -> Result<int, (int, Seq<char>)>
    decreases 4 - k,
{
    if k >= 4 {
        Ok(acc)
    } else if p + k < 0 || p + k >= s.len() {
        Err((p + k, "short unicode escape"@))
    } else {
        match hex_val(s[p + k]) {
            None => Err((p + k, "invalid hex digit '"@ + seq![s[p + k]] + "'"@)),
            Some(d) => hex_from(s, p, k + 1, acc * 16 + d),
        }
    }
}

pub open spec fn hex4_spec(s: Seq<char>, p: int) -> Result<int, (int, Seq<char>)> {
    hex_from(s, p, 0, 0)
}

/// A Unicode scalar value.
pub open spec fn valid_cp(c: int) -> bool {
    (0 <= c < 0xD800) || (0xE000 <= c <= 0x10FFFF)
}

pub open spec fn simple_escape(e: char) -> Option<char> {
    if e == '"' { Some('"') }
    else if e == '\\' { Some('\\') }
    else if e == '/' { Some('/') }
    else if e == 'b' { Some('\u{8}') }
    else if e == 'f' { Some('\u{c}') }
    else if e == 'n' { Some('\n') }
    else if e == 'r' { Some('\r') }
    else if e == 't' { Some('\t') }
    else { None }
}

/// The rest of a string literal from `p` (just after the opening quote or
/// after what `acc` decodes), up to and past its closing quote.
pub open spec fn str_from(s: Seq<char>, p: int, acc: Seq<char>) -> PRes<Seq<char>>
    decreases s.len() - p,
{
    if p < 0 || p >= s.len() {
        Err((p, "unterminated string"@))
    } else if s[p] == '"' {
        Ok((acc, p + 1))
    } else if s[p] != '\\' {
        str_from(s, p + 1, acc.push(s[p]))
    } else if p + 1 >= s.len() {
        Err((p + 1, "unterminated escape sequence"@))
    } else if s[p + 1] != 'u' {
        match simple_escape(s[p + 1]) {
            Some(ch) => str_from(s, p + 2, acc.push(ch)),
            None => Err((p + 1, "invalid escape '\\"@ + seq![s[p + 1]] + "'"@)),
        }
    } else {
        match hex4_spec(s, p + 2) {
            Err(x) => Err(x),
            Ok(cp) => if 0xD800 <= cp <= 0xDBFF {
                proof { lemma_hex4_bounds(s, p + 2); }
                let q = p + 6;
                if q >= s.len() || s[q] != '\\' {
                    Err((if q < s.len() { q + 1 } else { q }, "invalid surrogate pair"@))
                } else if q + 1 >= s.len() || s[q + 1] != 'u' {
                    Err((if q + 1 < s.len() { q + 2 } else { q + 1 }, "invalid surrogate pair"@))
                } else {
                    match hex4_spec(s, q + 2) {
                        Err(x) => Err(x),
                        Ok(low) => if !(0xDC00 <= low <= 0xDFFF) {
                            Err((q + 6, "invalid low surrogate"@))
                        } else {
                            proof { lemma_hex4_bounds(s, q + 2); }
                            let c = 0x10000 + (cp - 0xD800) * 1024 + (low - 0xDC00);
                            if valid_cp(c) {
                                str_from(s, q + 6, acc.push(c as char))
                            } else {
                                Err((q + 6, "bad code point"@))
                            }
                        },
                    }
                }
            } else if valid_cp(cp) {
                proof { lemma_hex4_bounds(s, p + 2); }
                str_from(s, p + 6, acc.push(cp as char))
            } else {
                Err((p + 6, "bad code point"@))
            },
        }
    }
}

/// A string literal at `p` (at its opening quote).
pub open spec fn string_spec(s: Seq<char>, p: int) -> PRes<Seq<char>> {
    str_from(s, p + 1, Seq::empty())
}

pub open spec fn word_at(s: Seq<char>, p: int, w: Seq<char>) -> bool {
    0 <= p && p + w.len() <= s.len() && s.subrange(p, p + w.len()) == w
}

/// `"unexpected character 'c' at start of value"`, and the like.
pub open spec fn quoted(before: Seq<char>, c: char, after: Seq<char>) -> Seq<char> {
    before + seq![c] + after
}

/// A value at `q`, where whitespace has already been skipped.
pub open spec fn value_at(s: Seq<char>, q: int) -> PRes<JsonV>
    decreases s.len() - q, 2int,
{
    if q < 0 || q >= s.len() {
        Err((q, "unexpected end of input"@))
    } else {
        let c = s[q];
        if c == '{' {
            object_spec(s, q)
        } else if c == '[' {
            array_spec(s, q)
        } else if c == '"' {
            match string_spec(s, q) {
                Ok((t, e)) => Ok((JsonV::Str(t), e)),
                Err(x) => Err(x),
            }
        } else if c == 't' || c == 'f' {
            if word_at(s, q, "true"@) {
                Ok((JsonV::Bool(true), q + 4))
            } else if word_at(s, q, "false"@) {
                Ok((JsonV::Bool(false), q + 5))
            } else {
                Err((q, "invalid literal (expected true/false)"@))
            }
        } else if c == 'n' {
            if word_at(s, q, "null"@) {
                Ok((JsonV::Null, q + 4))
            } else {
                Err((q, "invalid literal (expected null)"@))
            }
        } else if c == '-' || is_digit(c) {
            match number_spec(s, q) {
                Ok((n, e)) => Ok((JsonV::Number(n), e)),
                Err(x) => Err(x),
            }
        } else {
            Err((q, quoted("unexpected character '"@, c, "' at start of value"@)))
        }
    }
}

/// An array at `q` (at its `[`).
pub open spec fn array_spec(s: Seq<char>, q: int) -> PRes<JsonV>
    decreases s.len() - q, 1int,
{
    if q < 0 || q >= s.len() {
        Err((q, "unexpected end of input"@))
    } else {
        let r = skip_ws_spec(s, q + 1);
        proof { lemma_skip_ws_ge(s, q + 1); }
        if 0 <= r < s.len() && s[r] == ']' {
            Ok((JsonV::Array(Seq::empty()), r + 1))
        } else {
            elems_spec(s, r, Seq::empty())
        }
    }
}

/// The elements of an array from `p` onwards, after `acc`.
pub open spec fn elems_spec(s: Seq<char>, p: int, acc: Seq<JsonV>) -> PRes<JsonV>
    decreases s.len() - p, 3int,
{
    let q = skip_ws_spec(s, p);
    proof { lemma_skip_ws_ge(s, p); }
    match value_at(s, q) {
        Err(x) => Err(x),
        Ok((v, e)) => if e <= p {
            Err((e, "unterminated array"@))
        } else {
            let r = skip_ws_spec(s, e);
            proof { lemma_skip_ws_ge(s, e); }
            if r < 0 || r >= s.len() {
                Err((r, "unterminated array"@))
            } else if s[r] == ',' {
                elems_spec(s, r + 1, acc.push(v))
            } else if s[r] == ']' {
                Ok((JsonV::Array(acc.push(v)), r + 1))
            } else {
                Err((r, quoted("expected ',' or ']' in array, found '"@, s[r], "'"@)))
            }
        },
    }
}

/// An object at `q` (at its `{`).
pub open spec fn object_spec(s: Seq<char>, q: int) -> PRes<JsonV>
    decreases s.len() - q, 1int,
{
    if q < 0 || q >= s.len() {
        Err((q, "unexpected end of input"@))
    } else {
        let r = skip_ws_spec(s, q + 1);
        proof { lemma_skip_ws_ge(s, q + 1); }
        if 0 <= r < s.len() && s[r] == '}' {
            Ok((JsonV::Object(Seq::empty()), r + 1))
        } else {
            members_spec(s, r, Seq::empty())
        }
    }
}

/// The members of an object from `p` onwards, after `acc`.
pub open spec fn members_spec(s: Seq<char>, p: int, acc: Seq<(Seq<char>, JsonV)>) -> PRes<JsonV>
    decreases s.len() - p, 3int,
{
    let t = skip_ws_spec(s, p);
    proof { lemma_skip_ws_ge(s, p); }
    if t < 0 || t >= s.len() || s[t] != '"' {
        Err((t, "expected string key in object"@))
    } else {
        match string_spec(s, t) {
            Err(x) => Err(x),
            Ok((key, k)) => {
                proof { lemma_str_from_advances(s, t + 1, Seq::empty()); }
                let u = skip_ws_spec(s, k);
                proof { lemma_skip_ws_ge(s, k); }
                if u < 0 || u >= s.len() {
                    Err((u, "expected ':'"@))
                } else if s[u] != ':' {
                    Err((u, quoted("expected ':', found '"@, s[u], "'"@)))
                } else {
                    let vq = skip_ws_spec(s, u + 1);
                    proof { lemma_skip_ws_ge(s, u + 1); }
                    match value_at(s, vq) {
                        Err(x) => Err(x),
                        Ok((v, e)) => if e <= p {
                            Err((e, "unterminated object"@))
                        } else {
                            let r = skip_ws_spec(s, e);
                            proof { lemma_skip_ws_ge(s, e); }
                            if r < 0 || r >= s.len() {
                                Err((r, "unterminated object"@))
                            } else if s[r] == ',' {
                                members_spec(s, r + 1, acc.push((key, v)))
                            } else if s[r] == '}' {
                                Ok((JsonV::Object(acc.push((key, v))), r + 1))
                            } else {
                                Err((r, quoted("expected ',' or '}' in object, found '"@, s[r], "'"@)))
                            }
                        },
                    }
                }
            },
        }
    }
}

/// A whole document: one value, with optional whitespace around it.
pub open spec fn doc_spec(s: Seq<char>) -> Result<JsonV, (int, Seq<char>)> {
    match value_at(s, skip_ws_spec(s, 0)) {
        Err(x) => Err(x),
        Ok((v, e)) => {
            let r = skip_ws_spec(s, e);
            if r != s.len() {
                Err((r, "trailing characters after top-level JSON value"@))
            } else {
                Ok(v)
            }
        },
    }
}

pub proof fn lemma_skip_ws_ge(s: Seq<char>, p: int)
    ensures
        skip_ws_spec(s, p) >= p,
        p >= 0 ==> skip_ws_spec(s, p) <= s.len() || skip_ws_spec(s, p) == p,
    decreases s.len() - p,
{
    if 0 <= p < s.len() && is_ws(s[p]) {
        lemma_skip_ws_ge(s, p + 1);
    }
}

pub proof fn lemma_hex_from_bounds(s: Seq<char>, p: int, k: int, acc: int)
    requires
        0 <= k <= 4,
    ensures
        hex_from(s, p, k, acc) is Ok ==> k == 4 || (0 <= p + k && p + 4 <= s.len()),
    decreases 4 - k,
{
    if k < 4 && 0 <= p + k < s.len() {
        if let Some(d) = hex_val(s[p + k]) {
            lemma_hex_from_bounds(s, p, k + 1, acc * 16 + d);
        }
    }
}

pub proof fn lemma_hex4_bounds(s: Seq<char>, p: int)
    ensures
        hex4_spec(s, p) is Ok ==> 0 <= p && p + 4 <= s.len(),
{
    lemma_hex_from_bounds(s, p, 0, 0);
}

pub proof fn lemma_str_from_advances(s: Seq<char>, p: int, acc: Seq<char>)
    ensures
        str_from(s, p, acc) matches Ok((_, e)) ==> e > p,
    decreases s.len() - p,
{
    if 0 <= p < s.len() && s[p] != '"' {
        if s[p] != '\\' {
            lemma_str_from_advances(s, p + 1, acc.push(s[p]));
        } else if p + 1 < s.len() {
            if s[p + 1] != 'u' {
                if let Some(ch) = simple_escape(s[p + 1]) {
                    lemma_str_from_advances(s, p + 2, acc.push(ch));
                }
            } else if let Ok(cp) = hex4_spec(s, p + 2) {
                if 0xD800 <= cp <= 0xDBFF {
                    let q = p + 6;
                    if q < s.len() && s[q] == '\\' && q + 1 < s.len() && s[q + 1] == 'u' {
                        if let Ok(low) = hex4_spec(s, q + 2) {
                            lemma_hex4_bounds(s, q + 2);
                            let c = 0x10000 + (cp - 0xD800) * 1024 + (low - 0xDC00);
                            lemma_str_from_advances(s, q + 6, acc.push(c as char));
                        }
                    }
                } else {
                    lemma_hex4_bounds(s, p + 2);
                    lemma_str_from_advances(s, p + 6, acc.push(cp as char));
                }
            }
        }
    }
}


// ---------------------------------------------------------------------------
// Errors
// ---------------------------------------------------------------------------

/// A reading error: the char offset where reading failed, and why.
#[derive(Debug, Clone, PartialEq, Eq)]
pub struct JsonError {
    pub offset: usize,
    pub message: String,
}

pub open spec fn err_of(e: JsonError) -> (int, Seq<char>) {
    (e.offset as int, e.message@)
}

/// Line `k` (0-based) of `src` holds char offset `offset`.
pub open spec fn line_holds(src: Seq<char>, offset: int, k: int) -> bool {
    let st = line_starts_spec(src);
    &&& 0 <= k < st.len()
    &&& st[k] <= offset
    &&& (k + 1 < st.len() ==> offset < st[k + 1])
}

/// `JSON error at <line>:<col>: <message>`.
pub open spec fn display_spec(line: int, col: int, message: Seq<char>) -> Seq<char> {
    "JSON error at "@ + nat_digits(line as nat) + ":"@ + nat_digits(col as nat) + ": "@ + message
}

impl JsonError {
    pub fn new(offset: usize, message: String) -> (r: JsonError)
        ensures
            r.offset == offset,
            r.message@ == message@,
    {
        JsonError { offset, message }
    }

    /// The error as `JSON error at <line>:<col>: <message>`, with the
    /// 1-based line and column of the offset in `src`.
    pub fn display(&self, src: &str) -> (r: String)
        requires
            self.offset < usize::MAX,
        ensures
            exists|k: int| #[trigger] line_holds(src@, self.offset as int, k)
                && r@ == display_spec(k + 1, self.offset - line_starts_spec(src@)[k] + 1, self.message@),
    {
        let idx = LineIndex::new(src);
        let (line, col) = idx.line_col(self.offset);
        proof {
            let k = choose|k: int| #[trigger] idx.line_of(self.offset as int, k) && line == k + 1 && col == self.offset - idx.starts()[k] + 1;
            assert(line_holds(src@, self.offset as int, k));
        }
        let mut out = String::new();
        push_str(&mut out, "JSON error at ");
        let l = usize_text(line);
        push_str(&mut out, l.as_str());
        push_str(&mut out, ":");
        let c = usize_text(col);
        push_str(&mut out, c.as_str());
        push_str(&mut out, ": ");
        push_str(&mut out, self.message.as_str());
        out
    }
}

fn err(offset: usize, message: &str) -> (r: JsonError)
    ensures
        r.offset == offset,
        r.message@ == message@,
{
    JsonError { offset, message: crate::text::string_of(message) }
}

fn err_quoted(offset: usize, before: &str, c: char, after: &str) -> (r: JsonError)
    ensures
        r.offset == offset,
        r.message@ == quoted(before@, c, after@),
{
    let mut m = crate::text::string_of(before);
    push_char(&mut m, c);
    push_str(&mut m, after);
    JsonError { offset, message: m }
}

// ---------------------------------------------------------------------------
// Reading
// ---------------------------------------------------------------------------

fn skip_ws(s: &Vec<char>, p: usize) -> (r: usize)
    requires
        p <= s@.len(),
    ensures
        r == skip_ws_spec(s@, p as int),
        p <= r <= s@.len(),
{
    let mut i = p;
    while i < s.len() && ws(s[i])
        invariant
            p <= i <= s@.len(),
            skip_ws_spec(s@, p as int) == skip_ws_spec(s@, i as int),
        decreases s@.len() - i,
    {
        i = i + 1;
    }
    i
}

fn digits_to(s: &Vec<char>, p: usize) -> (r: usize)
    requires
        p <= s@.len(),
    ensures
        r == digits_end(s@, p as int),
        p <= r <= s@.len(),
        forall|j: int| p <= j < r ==> is_digit(#[trigger] s@[j]),
{
    let mut i = p;
    while i < s.len() && '0' <= s[i] && s[i] <= '9'
        invariant
            p <= i <= s@.len(),
            digits_end(s@, p as int) == digits_end(s@, i as int),
            forall|j: int| p <= j < i ==> is_digit(#[trigger] s@[j]),
        decreases s@.len() - i,
    {
        i = i + 1;
    }
    i
}

fn hex_digit(c: char) -> (r: Option<u32>)
    ensures
        match r {
            Some(d) => hex_val(c) == Some(d as int) && d < 16,
            None => hex_val(c) is None,
        },
{
    if '0' <= c && c <= '9' {
        Some((c as u32) - ('0' as u32))
    } else if 'a' <= c && c <= 'f' {
        Some((c as u32) - ('a' as u32) + 10)
    } else if 'A' <= c && c <= 'F' {
        Some((c as u32) - ('A' as u32) + 10)
    } else {
        None
    }
}

fn hex4(s: &Vec<char>, p: usize) -> (r: Result<u32, JsonError>)
    requires
        p <= s@.len(),
    ensures
        match r {
            Ok(v) => hex4_spec(s@, p as int) == Ok::<int, (int, Seq<char>)>(v as int) && v < 0x10000,
            Err(e) => hex4_spec(s@, p as int) == Err::<int, (int, Seq<char>)>(err_of(e)),
        },
{
    let mut acc: u32 = 0;
    let mut k: usize = 0;
    while k < 4
        invariant
            k <= 4,
            p <= s@.len(),
            hex4_spec(s@, p as int) == hex_from(s@, p as int, k as int, acc as int),
            p + k <= s@.len(),
            k == 0 ==> acc < 1,
            k == 1 ==> acc < 16,
            k == 2 ==> acc < 256,
            k == 3 ==> acc < 4096,
            k == 4 ==> acc < 65536,
        decreases 4 - k,
    {
        if s.len() - p <= k {
            return Err(err(p + k, "short unicode escape"));
        }
        let c = s[p + k];
        match hex_digit(c) {
            None => {
                return Err(err_quoted(p + k, "invalid hex digit '", c, "'"));
            },
            Some(d) => {
                acc = acc * 16 + d;
            },
        }
        k = k + 1;
    }
    Ok(acc)
}

/// `char::from_u32`: the character with code point `cp`, if it is a Unicode
/// scalar value.
#[verifier::external_body]
pub(crate) fn char_from(cp: u32) -> (r: Option<char>)
    ensures
        r == (if valid_cp(cp as int) { Some(cp as char) } else { None::<char> }),
{
    char::from_u32(cp)
}

fn parse_string(s: &Vec<char>, p: usize) -> (r: Result<(String, usize), JsonError>)
    requires
        p < s@.len(),
    ensures
        match r {
            Ok((t, e)) => string_spec(s@, p as int) == Ok::<(Seq<char>, int), (int, Seq<char>)>((t@, e as int)) && p < e <= s@.len(),
            Err(x) => string_spec(s@, p as int) == Err::<(Seq<char>, int), (int, Seq<char>)>(err_of(x)),
        },
{
    let n = s.len();
    let mut out = String::new();
    let mut i: usize = p + 1;
    while i < n
        invariant
            n == s@.len(),
            p + 1 <= i <= n,
            string_spec(s@, p as int) == str_from(s@, i as int, out@),
        decreases n - i,
    {
        let c = s[i];
        if c == '"' {
            return Ok((out, i + 1));
        } else if c != '\\' {
            push_char(&mut out, c);
            i = i + 1;
        } else if i + 1 >= n {
            return Err(err(i + 1, "unterminated escape sequence"));
        } else if s[i + 1] != 'u' {
            let e = s[i + 1];
            let simple: Option<char> =
                if e == '"' { Some('"') }
                else if e == '\\' { Some('\\') }
                else if e == '/' { Some('/') }
                else if e == 'b' { Some('\u{8}') }
                else if e == 'f' { Some('\u{c}') }
                else if e == 'n' { Some('\n') }
                else if e == 'r' { Some('\r') }
                else if e == 't' { Some('\t') }
                else { None };
            match simple {
                Some(ch) => {
                    push_char(&mut out, ch);
                    i = i + 2;
                },
                None => {
                    return Err(err_quoted(i + 1, "invalid escape '\\", e, "'"));
                },
            }
        } else {
            let cp = match hex4(s, i + 2) {
                Ok(v) => v,
                Err(x) => return Err(x),
            };
            proof { lemma_hex4_bounds(s@, i + 2); }
            if 0xD800 <= cp && cp <= 0xDBFF {
                let q = i + 6;
                if q >= n || s[q] != '\\' {
                    return Err(err(if q < n { q + 1 } else { q }, "invalid surrogate pair"));
                }
                if q + 1 >= n || s[q + 1] != 'u' {
                    return Err(err(if q + 1 < n { q + 2 } else { q + 1 }, "invalid surrogate pair"));
                }
                let low = match hex4(s, q + 2) {
                    Ok(v) => v,
                    Err(x) => return Err(x),
                };
                proof { lemma_hex4_bounds(s@, q + 2); }
                if !(0xDC00 <= low && low <= 0xDFFF) {
                    return Err(err(q + 6, "invalid low surrogate"));
                }
                let c = 0x10000 + (cp - 0xD800) * 1024 + (low - 0xDC00);
                match char_from(c) {
                    Some(ch) => {
                        push_char(&mut out, ch);
                        i = q + 6;
                    },
                    None => {
                        return Err(err(q + 6, "bad code point"));
                    },
                }
            } else {
                match char_from(cp) {
                    Some(ch) => {
                        push_char(&mut out, ch);
                        i = i + 6;
                    },
                    None => {
                        return Err(err(i + 6, "bad code point"));
                    },
                }
            }
        }
    }
    Err(err(i, "unterminated string"))
}

fn word_matches(s: &Vec<char>, q: usize, w: &str) -> (r: bool)
    requires
        q <= s@.len(),
    ensures
        r == word_at(s@, q as int, w@),
{
    let wc = chars_of(w);
    if s.len() - q < wc.len() {
        return false;
    }
    let mut j: usize = 0;
    while j < wc.len()
        invariant
            wc@ == w@,
            s@.len() <= usize::MAX,
            q + wc@.len() <= s@.len(),
            j <= wc@.len(),
            forall|t: int| 0 <= t < j ==> s@[q + t] == wc@[t],
        decreases wc@.len() - j,
    {
        if s[q + j] != wc[j] {
            assert(s@.subrange(q as int, q + w@.len())[j as int] != w@[j as int]);
            return false;
        }
        j = j + 1;
    }
    assert(s@.subrange(q as int, q + w@.len()) =~= w@);
    true
}


// ---------------------------------------------------------------------------
// Numbers
// ---------------------------------------------------------------------------

proof fn lemma_digit_bounds(c: char)
    requires
        is_digit(c),
    ensures
        0 <= digit_val(c) <= 9,
{
}

/// A longer prefix of a digit string is worth at least as much.
proof fn lemma_digits_mono(ds: Seq<char>, k: int)
    requires
        0 <= k <= ds.len(),
        forall|j: int| 0 <= j < ds.len() ==> is_digit(#[trigger] ds[j]),
    ensures
        digits_val(ds.take(k)) <= digits_val(ds),
    decreases ds.len(),
{
    if k < ds.len() {
        let init = ds.drop_last();
        assert forall|j: int| 0 <= j < init.len() implies is_digit(#[trigger] init[j]) by {
            assert(init[j] == ds[j]);
        }
        lemma_digits_mono(init, k);
        assert(init.take(k) == ds.take(k));
        lemma_digit_bounds(ds.last());
    } else {
        assert(ds.take(k) == ds);
    }
}

proof fn lemma_pow10_ge1(n: nat)
    ensures
        pow10(n) >= 1,
    decreases n,
{
    if n > 0 {
        lemma_pow10_ge1((n - 1) as nat);
    }
}

proof fn lemma_pow10_mono(a: nat, b: nat)
    requires
        a <= b,
    ensures
        pow10(a) <= pow10(b),
    decreases b,
{
    if a < b {
        lemma_pow10_mono(a, (b - 1) as nat);
        lemma_pow10_ge1((b - 1) as nat);
    }
}

proof fn lemma_pow10_20()
    ensures
        pow10(19) == 10_000_000_000_000_000_000,
        pow10(20) == 100_000_000_000_000_000_000,
{
    reveal_with_fuel(pow10, 21);
}

/// The value of the digits `s[lo..hi]`, or `None` when it exceeds `cap`.
pub(crate) fn capped_digits(s: &Vec<char>, lo: usize, hi: usize, cap: u128) -> (r: Option<u128>)
    requires
        lo <= hi <= s@.len(),
        forall|j: int| lo <= j < hi ==> is_digit(#[trigger] s@[j]),
        cap <= 0x1_0000_0000_0000_0000_0000_0000,
    ensures
        match r {
            Some(v) => v == digits_val(s@.subrange(lo as int, hi as int)) && v <= cap,
            None => digits_val(s@.subrange(lo as int, hi as int)) > cap,
        },
{
    let mut v: u128 = 0;
    let mut i = lo;
    assert(s@.subrange(lo as int, lo as int) =~= Seq::<char>::empty());
    while i < hi
        invariant
            lo <= i <= hi <= s@.len(),
            forall|j: int| lo <= j < hi ==> is_digit(#[trigger] s@[j]),
            cap <= 0x1_0000_0000_0000_0000_0000_0000,
            v == digits_val(s@.subrange(lo as int, i as int)),
            v <= cap,
        decreases hi - i,
    {
        let c = s[i];
        assert(is_digit(s@[i as int]));
        proof { lemma_digit_bounds(c); }
        let d = (c as u32 - '0' as u32) as u128;
        let ghost pre = s@.subrange(lo as int, i + 1);
        assert(pre.drop_last() =~= s@.subrange(lo as int, i as int));
        assert(pre.last() == c);
        let nv = v * 10 + d;
        assert(nv == digits_val(pre));
        if nv > cap {
            proof {
                let full = s@.subrange(lo as int, hi as int);
                assert forall|j: int| 0 <= j < full.len() implies is_digit(#[trigger] full[j]) by {
                    assert(full[j] == s@[lo + j]);
                }
                assert(full.take(i + 1 - lo) =~= pre);
                lemma_digits_mono(full, i + 1 - lo);
            }
            return None;
        }
        v = nv;
        i = i + 1;
    }
    Some(v)
}

/// The number `(-1)^neg * digits * 10^(exp - frac_len)`, given the value
/// of its significand without trailing zeros (`None` when over `2^63`) and
/// its exponent (`None` when its magnitude is over `2^70`).
fn classify(
    neg: bool,
    core: Option<u128>,
    z: usize,
    frac_len: usize,
    ex: Option<u128>,
    ex_neg: bool,
    Ghost(digits): Ghost<Seq<char>>,
    Ghost(exp): Ghost<int>,
) -> (r: JsonNumber)
    requires
        trailing_zeros(digits) == z,
        z <= digits.len(),
        frac_len <= digits.len(),
        digits.len() <= usize::MAX,
        core matches Some(v) ==> v == digits_val(digits.take(digits.len() - z)) && v <= 0x8000_0000_0000_0000,
        core is None ==> digits_val(digits.take(digits.len() - z)) > 0x8000_0000_0000_0000,
        ex matches Some(v) ==> v <= 0x40_0000_0000_0000_0000 && exp == (if ex_neg { -(v as int) } else { v as int }),
        ex is None ==> (if ex_neg { exp < -0x40_0000_0000_0000_0000 } else { exp > 0x40_0000_0000_0000_0000 }),
    ensures
        r == number_value(neg, digits, frac_len as int, exp),
{
    let ghost cv = digits_val(digits.take(digits.len() - z));
    let ghost e2 = exp - frac_len + z;
    if let Some(v) = core {
        if v == 0 {
            return JsonNumber::Int(0);
        }
    }
    assert(cv > 0);
    let mut big = false;
    let mut e: u32 = 0;
    match ex {
        None => {
            if ex_neg {
                return JsonNumber::Fraction;
            }
            big = true;
        },
        Some(v) => {
            let ee: i128 = if ex_neg { -(v as i128) } else { v as i128 };
            let e2x: i128 = ee - frac_len as i128 + z as i128;
            assert(e2x == e2);
            if e2x < 0 {
                return JsonNumber::Fraction;
            }
            if e2x > 19 {
                big = true;
            } else {
                e = e2x as u32;
            }
        },
    }
    assert(e2 >= 0);
    let ghost mag = cv * pow10(e2 as nat);
    proof {
        lemma_pow10_ge1(e2 as nat);
        assert(cv * pow10(e2 as nat) >= cv) by (nonlinear_arith)
            requires cv > 0, pow10(e2 as nat) >= 1;
        assert(cv * pow10(e2 as nat) >= pow10(e2 as nat)) by (nonlinear_arith)
            requires cv >= 1, pow10(e2 as nat) >= 1;
    }
    if big || core.is_none() {
        proof {
            if core.is_none() {
                assert(mag > 0x8000_0000_0000_0000);
            } else {
                assert(e2 > 19);
                lemma_pow10_mono(20, e2 as nat);
                lemma_pow10_20();
                assert(mag > 0x8000_0000_0000_0000);
            }
        }
        return JsonNumber::Big(neg);
    }
    let c = match core { Some(v) => v, None => 0 };
    assert(c == cv);
    assert(e == e2);
    let mut m: u128 = c;
    let mut t: u32 = 0;
    proof {
        lemma_pow10_20();
        assert(pow10(0) == 1);
        assert(c * pow10(0) == c);
    }
    while t < e
        invariant
            t <= e <= 19,
            1 <= c <= 0x8000_0000_0000_0000,
            m == c * pow10(t as nat),
            pow10(19) == 10_000_000_000_000_000_000,
        decreases e - t,
    {
        proof {
            lemma_pow10_mono((t + 1) as nat, 19);
            assert(c * pow10((t + 1) as nat) <= 0x8000_0000_0000_0000 * 10_000_000_000_000_000_000) by (nonlinear_arith)
                requires c <= 0x8000_0000_0000_0000, pow10((t + 1) as nat) <= 10_000_000_000_000_000_000;
            assert(c * pow10((t + 1) as nat) == c * pow10(t as nat) * 10) by (nonlinear_arith)
                requires pow10((t + 1) as nat) == 10 * pow10(t as nat);
        }
        m = m * 10;
        t = t + 1;
    }
    assert(m == mag);
    if neg {
        if m <= 0x8000_0000_0000_0000 {
            JsonNumber::Int((0 - (m as i128)) as i64)
        } else {
            JsonNumber::Big(true)
        }
    } else {
        if m <= 0x7fff_ffff_ffff_ffff {
            JsonNumber::Int(m as i64)
        } else {
            JsonNumber::Big(false)
        }
    }
}

/// The digits `s[a..b]`, then, with a fraction, the digits `s[b+1..d]`.
fn gather_digits(s: &Vec<char>, a: usize, b: usize, has_frac: bool, d: usize) -> (digs: Vec<char>)
    requires
        a <= b <= d <= s@.len(),
        has_frac ==> b < d,
        !has_frac ==> b == d,
        forall|j: int| a <= j < b ==> is_digit(#[trigger] s@[j]),
        forall|j: int| b + 1 <= j < d ==> is_digit(#[trigger] s@[j]),
    ensures
        digs@ == s@.subrange(a as int, b as int) + (if has_frac { s@.subrange(b + 1, d as int) } else { Seq::<char>::empty() }),
        forall|j: int| 0 <= j < digs@.len() ==> is_digit(#[trigger] digs@[j]),
{
    let mut digs: Vec<char> = Vec::new();
    let mut i = a;
    while i < b
        invariant
            a <= i <= b <= s@.len(),
            digs@ == s@.subrange(a as int, i as int),
        decreases b - i,
    {
        digs.push(s[i]);
        assert(digs@ =~= s@.subrange(a as int, i + 1));
        i = i + 1;
    }
    let ghost int_digits = digs@;
    if has_frac {
        let mut j = b + 1;
        while j < d
            invariant
                b + 1 <= j <= d <= s@.len(),
                digs@ == int_digits + s@.subrange(b + 1, j as int),
            decreases d - j,
        {
            digs.push(s[j]);
            assert(digs@ =~= int_digits + s@.subrange(b + 1, j + 1));
            j = j + 1;
        }
    } else {
        assert(digs@ =~= int_digits + Seq::<char>::empty());
    }
    assert forall|j: int| 0 <= j < digs@.len() implies is_digit(#[trigger] digs@[j]) by {
        if j < b - a {
            assert(digs@[j] == s@[a + j]);
        } else {
            assert(digs@[j] == s@[b + 1 + (j - (b - a))]);
        }
    }
    digs
}

/// How many digits remain once the trailing zeros are dropped.
fn kept_digits(digs: &Vec<char>) -> (k: usize)
    ensures
        k <= digs@.len(),
        trailing_zeros(digs@) == digs@.len() - k,
        digs@.take(digs@.len() - trailing_zeros(digs@)) == digs@.subrange(0, k as int),
{
    let mut k = digs.len();
    assert(digs@.take(digs@.len() as int) =~= digs@);
    while k > 0 && digs[k - 1] == '0'
        invariant
            k <= digs@.len(),
            trailing_zeros(digs@) == trailing_zeros(digs@.take(k as int)) + (digs@.len() - k),
        decreases k,
    {
        assert(digs@.take(k as int).drop_last() =~= digs@.take(k - 1));
        k = k - 1;
    }
    assert(trailing_zeros(digs@.take(k as int)) == 0);
    assert(digs@.take(k as int) =~= digs@.subrange(0, k as int));
    k
}


#[verifier::rlimit(90)]
fn parse_number(s: &Vec<char>, p: usize) -> (r: Result<(JsonNumber, usize), JsonError>)
    requires
        p < s@.len(),
    ensures
        match r {
            Ok((v, e)) => number_spec(s@, p as int) == Ok::<(JsonNumber, int), (int, Seq<char>)>((v, e as int)) && p < e <= s@.len(),
            Err(x) => number_spec(s@, p as int) == Err::<(JsonNumber, int), (int, Seq<char>)>(err_of(x)),
        },
{
    let n = s.len();
    let neg = s[p] == '-';
    let a = if neg { p + 1 } else { p };
    let b = digits_to(s, a);
    if b == a {
        return Err(err(p, "invalid number: no digits"));
    }
    let has_frac = b < n && s[b] == '.';
    let d = if has_frac { digits_to(s, b + 1) } else { b };
    if has_frac && d == b + 1 {
        return Err(err(p, "invalid number: '.' without fraction"));
    }
    let has_exp = d < n && (s[d] == 'e' || s[d] == 'E');
    let exp_neg = has_exp && d + 1 < n && s[d + 1] == '-';
    let f = if !has_exp { d } else if d + 1 < n && (s[d + 1] == '+' || s[d + 1] == '-') { d + 2 } else { d + 1 };
    let g = if has_exp { digits_to(s, f) } else { d };
    if has_exp && g == f {
        return Err(err(p, "invalid number: exponent without digits"));
    }
    let digs = gather_digits(s, a, b, has_frac, d);
    let ghost frac = if has_frac { s@.subrange(b + 1, d as int) } else { Seq::<char>::empty() };
    let frac_len: usize = if has_frac { d - (b + 1) } else { 0 };
    let k = kept_digits(&digs);
    let z = digs.len() - k;
    let core = capped_digits(&digs, 0, k, 0x8000_0000_0000_0000);
    let ex: Option<u128> = if has_exp { capped_digits(s, f, g, 0x40_0000_0000_0000_0000) } else { Some(0) };
    let ghost ev = if has_exp { digits_val(s@.subrange(f as int, g as int)) as int } else { 0 };
    let ghost exp = if exp_neg { -ev } else { ev };
    let v = classify(neg, core, z, frac_len, ex, exp_neg, Ghost(digs@), Ghost(exp));
    Ok((v, g))
}


// ---------------------------------------------------------------------------
// Values, arrays, objects, documents
// ---------------------------------------------------------------------------

pub proof fn lemma_jv_array(items: Seq<JsonValue>, v: Vec<JsonValue>)
    requires
        v@ == items,
    ensures
        jv(JsonValue::Array(v)) == JsonV::Array(jv_items(items)),
{
    let x = jv(JsonValue::Array(v));
    assert(x is Array);
    assert(x->Array_0 =~= jv_items(items));
}

pub proof fn lemma_jv_object(fields: Seq<(String, JsonValue)>, v: Vec<(String, JsonValue)>)
    requires
        v@ == fields,
    ensures
        jv(JsonValue::Object(v)) == JsonV::Object(jv_fields(fields)),
{
    let x = jv(JsonValue::Object(v));
    assert(x is Object);
    assert(x->Object_0 =~= jv_fields(fields));
}

fn value_exec(s: &Vec<char>, q: usize) -> (r: Result<(JsonValue, usize), JsonError>)
    requires
        q <= s@.len(),
    ensures
        match r {
            Ok((v, e)) => value_at(s@, q as int) == Ok::<(JsonV, int), (int, Seq<char>)>((jv(v), e as int)) && q < e <= s@.len(),
            Err(x) => value_at(s@, q as int) == Err::<(JsonV, int), (int, Seq<char>)>(err_of(x)),
        },
    decreases s@.len() - q, 2int,
{
    let n = s.len();
    if q >= n {
        return Err(err(q, "unexpected end of input"));
    }
    let c = s[q];
    if c == '{' {
        parse_object(s, q)
    } else if c == '[' {
        parse_array(s, q)
    } else if c == '"' {
        match parse_string(s, q) {
            Ok((t, e)) => Ok((JsonValue::Str(t), e)),
            Err(x) => Err(x),
        }
    } else if c == 't' || c == 'f' {
        if word_matches(s, q, "true") {
            proof { reveal_strlit("true"); }
            Ok((JsonValue::Bool(true), q + 4))
        } else if word_matches(s, q, "false") {
            proof { reveal_strlit("false"); }
            Ok((JsonValue::Bool(false), q + 5))
        } else {
            Err(err(q, "invalid literal (expected true/false)"))
        }
    } else if c == 'n' {
        if word_matches(s, q, "null") {
            proof { reveal_strlit("null"); }
            Ok((JsonValue::Null, q + 4))
        } else {
            Err(err(q, "invalid literal (expected null)"))
        }
    } else if c == '-' || ('0' <= c && c <= '9') {
        match parse_number(s, q) {
            Ok((v, e)) => Ok((JsonValue::Number(v), e)),
            Err(x) => Err(x),
        }
    } else {
        Err(err_quoted(q, "unexpected character '", c, "' at start of value"))
    }
}

fn parse_array(s: &Vec<char>, q: usize) -> (r: Result<(JsonValue, usize), JsonError>)
    requires
        q < s@.len(),
        s@[q as int] == '[',
    ensures
        match r {
            Ok((v, e)) => array_spec(s@, q as int) == Ok::<(JsonV, int), (int, Seq<char>)>((jv(v), e as int)) && q < e <= s@.len(),
            Err(x) => array_spec(s@, q as int) == Err::<(JsonV, int), (int, Seq<char>)>(err_of(x)),
        },
    decreases s@.len() - q, 1int,
{
    let n = s.len();
    let r = skip_ws(s, q + 1);
    if r < n && s[r] == ']' {
        let items: Vec<JsonValue> = Vec::new();
        proof {
            lemma_jv_array(items@, items);
            assert(jv_items(items@) =~= Seq::<JsonV>::empty());
        }
        return Ok((JsonValue::Array(items), r + 1));
    }
    let mut items: Vec<JsonValue> = Vec::new();
    let mut p = r;
    assert(jv_items(items@) =~= Seq::<JsonV>::empty());
    loop
        invariant
            n == s@.len(),
            q < p <= n,
            array_spec(s@, q as int) == elems_spec(s@, p as int, jv_items(items@)),
        decreases n - p,
    {
        let t = skip_ws(s, p);
        match value_exec(s, t) {
            Err(x) => {
                return Err(x);
            },
            Ok((v, e)) => {
                let r2 = skip_ws(s, e);
                if r2 >= n {
                    return Err(err(r2, "unterminated array"));
                }
                let c = s[r2];
                let ghost before = items@;
                if c == ',' {
                    items.push(v);
                    assert(jv_items(items@) =~= jv_items(before).push(jv(items@.last())));
                    p = r2 + 1;
                } else if c == ']' {
                    items.push(v);
                    assert(jv_items(items@) =~= jv_items(before).push(jv(items@.last())));
                    proof { lemma_jv_array(items@, items); }
                    return Ok((JsonValue::Array(items), r2 + 1));
                } else {
                    return Err(err_quoted(r2, "expected ',' or ']' in array, found '", c, "'"));
                }
            },
        }
    }
}

fn parse_object(s: &Vec<char>, q: usize) -> (r: Result<(JsonValue, usize), JsonError>)
    requires
        q < s@.len(),
        s@[q as int] == '{',
    ensures
        match r {
            Ok((v, e)) => object_spec(s@, q as int) == Ok::<(JsonV, int), (int, Seq<char>)>((jv(v), e as int)) && q < e <= s@.len(),
            Err(x) => object_spec(s@, q as int) == Err::<(JsonV, int), (int, Seq<char>)>(err_of(x)),
        },
    decreases s@.len() - q, 1int,
{
    let n = s.len();
    let r = skip_ws(s, q + 1);
    if r < n && s[r] == '}' {
        let fields: Vec<(String, JsonValue)> = Vec::new();
        proof {
            lemma_jv_object(fields@, fields);
            assert(jv_fields(fields@) =~= Seq::<(Seq<char>, JsonV)>::empty());
        }
        return Ok((JsonValue::Object(fields), r + 1));
    }
    let mut fields: Vec<(String, JsonValue)> = Vec::new();
    let mut p = r;
    assert(jv_fields(fields@) =~= Seq::<(Seq<char>, JsonV)>::empty());
    loop
        invariant
            n == s@.len(),
            q < p <= n,
            object_spec(s@, q as int) == members_spec(s@, p as int, jv_fields(fields@)),
        decreases n - p,
    {
        let t = skip_ws(s, p);
        if t >= n || s[t] != '"' {
            return Err(err(t, "expected string key in object"));
        }
        let (key, k) = match parse_string(s, t) {
            Ok(x) => x,
            Err(x) => return Err(x),
        };
        proof { lemma_str_from_advances(s@, t + 1, Seq::empty()); }
        let u = skip_ws(s, k);
        if u >= n {
            return Err(err(u, "expected ':'"));
        }
        if s[u] != ':' {
            return Err(err_quoted(u, "expected ':', found '", s[u], "'"));
        }
        let vq = skip_ws(s, u + 1);
        match value_exec(s, vq) {
            Err(x) => {
                return Err(x);
            },
            Ok((v, e)) => {
                let r2 = skip_ws(s, e);
                if r2 >= n {
                    return Err(err(r2, "unterminated object"));
                }
                let c = s[r2];
                let ghost before = fields@;
                let ghost kv = key@;
                if c == ',' {
                    fields.push((key, v));
                    assert(jv_fields(fields@) =~= jv_fields(before).push((kv, jv(fields@.last().1))));
                    p = r2 + 1;
                } else if c == '}' {
                    fields.push((key, v));
                    assert(jv_fields(fields@) =~= jv_fields(before).push((kv, jv(fields@.last().1))));
                    proof { lemma_jv_object(fields@, fields); }
                    return Ok((JsonValue::Object(fields), r2 + 1));
                } else {
                    return Err(err_quoted(r2, "expected ',' or '}' in object, found '", c, "'"));
                }
            },
        }
    }
}

/// Read a complete JSON document: exactly one value, with optional
/// whitespace before and after it.
pub fn parse_json(src: &str) -> (r: Result<JsonValue, JsonError>)
    ensures
        match r {
            Ok(v) => doc_spec(src@) == Ok::<JsonV, (int, Seq<char>)>(jv(v)),
            Err(x) => doc_spec(src@) == Err::<JsonV, (int, Seq<char>)>(err_of(x)),
        },
{
    let s = chars_of(src);
    let p = skip_ws(&s, 0);
    let (v, e) = match value_exec(&s, p) {
        Ok(x) => x,
        Err(x) => return Err(x),
    };
    let r = skip_ws(&s, e);
    if r != s.len() {
        return Err(err(r, "trailing characters after top-level JSON value"));
    }
    Ok(v)
}

impl JsonValue {
    /// The first field named `key` of an object; `None` for a non-object or
    /// an absent key.
    pub fn get(&self, key: &str) -> (r: Option<&JsonValue>)
        ensures
            r matches Some(x) ==> *self is Object && field_of(jv_fields(self->Object_0@), key@) == Some(jv(*x)),
            r is None ==> !(*self is Object) || field_of(jv_fields(self->Object_0@), key@) is None,
    {
        match self {
            JsonValue::Object(fs) => {
                let ghost all = jv_fields(fs@);
                let mut i: usize = 0;
                assert(all.subrange(0, all.len() as int) =~= all);
                while i < fs.len()
                    invariant
                        i <= fs@.len(),
                        all == jv_fields(fs@),
                        *self is Object,
                        self->Object_0@ == fs@,
                        field_of(all, key@) == field_of(all.subrange(i as int, all.len() as int), key@),
                    decreases fs@.len() - i,
                {
                    let ghost rest = all.subrange(i as int, all.len() as int);
                    assert(rest[0] == (fs@[i as int].0@, jv(fs@[i as int].1)));
                    if crate::text::str_eq(fs[i].0.as_str(), key) {
                        assert(rest.len() > 0);
                        assert(rest[0].0 == key@);
                        assert(field_of(rest, key@) == Some(rest[0].1));
                        assert(field_of(jv_fields(fs@), key@) == Some(jv(fs@[i as int].1)));
                        let x = &fs[i].1;
                        assert(*x == fs@[i as int].1);
                        return Some(x);
                    }
                    assert(rest.drop_first() =~= all.subrange(i + 1, all.len() as int));
                    i = i + 1;
                }
                assert(all.subrange(i as int, all.len() as int) =~= Seq::<(Seq<char>, JsonV)>::empty());
                None
            },
            _ => None,
        }
    }

    /// The fields of an object.
    pub fn as_object(&self) -> (r: &Vec<(String, JsonValue)>)
        requires
            *self is Object,
        ensures
            *self == JsonValue::Object(*r),
    {
        match self {
            JsonValue::Object(o) => o,
            _ => vstd::pervasive::unreached(),
        }
    }

    /// The items of an array.
    pub fn as_array(&self) -> (r: &Vec<JsonValue>)
        requires
            *self is Array,
        ensures
            *self == JsonValue::Array(*r),
    {
        match self {
            JsonValue::Array(a) => a,
            _ => vstd::pervasive::unreached(),
        }
    }

    /// The contents of a string.
    pub fn as_str(&self) -> (r: &str)
        requires
            *self is Str,
        ensures
            self matches JsonValue::Str(t) && r@ == t@,
    {
        match self {
            JsonValue::Str(t) => t.as_str(),
            _ => vstd::pervasive::unreached(),
        }
    }

    pub fn is_object(&self) -> (r: bool)
        ensures
            r == (*self is Object),
    {
        match self {
            JsonValue::Object(_) => true,
            _ => false,
        }
    }

    pub fn is_array(&self) -> (r: bool)
        ensures
            r == (*self is Array),
    {
        match self {
            JsonValue::Array(_) => true,
            _ => false,
        }
    }

    pub fn is_string(&self) -> (r: bool)
        ensures
            r == (*self is Str),
    {
        match self {
            JsonValue::Str(_) => true,
            _ => false,
        }
    }

    pub fn is_number(&self) -> (r: bool)
        ensures
            r == (*self is Number),
    {
        match self {
            JsonValue::Number(_) => true,
            _ => false,
        }
    }
}

} // verus!
