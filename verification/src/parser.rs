//! Recursive-descent parser for Telos, building the AST.
//!
//! Every production leaves the token buffer untouched, only moves the cursor
//! forward, and never moves it past the final `Eof` token; productions that
//! succeed consume at least one token. Parsed functions and invariants carry
//! exactly one source span per contract clause.

use vstd::prelude::*;
use crate::ast::{Module, Item, Invariant, StructDef, EnumDef, FieldDef, VariantDef, Param, ParamMutability, Func, Stmt, LetBinding, IfStmt, MatchStmt, MatchArm, Pattern, Assign, AssignOp, Expr, CallExpr, MethodCallExpr, IndexExpr, IfExpr, MatchExpr, ExprMatchArm, ForallExpr, AggregateExpr, AggregateOp, op_name_spec, UnOp, BinOp, Attribute, Arg, Literal, Type};
use crate::lexer::{lex, lexed, Token, Spanned, describe_spec, lex_ok_from, lex_error_from, skip_gap, scan_from};
use crate::span::{LineIndex, Span};
use crate::text::{string_of, push_str, str_eq, i64_text, int_text};

verus! {

pub struct Parser {
    tokens: Vec<Spanned>,
    pos: usize,
    line_index: LineIndex,
}

/// One source span per contract clause, and no body on an elided function.
pub open spec fn func_wf(f: Func) -> bool {
    &&& f.requires_spans@.len() == f.requires@.len()
    &&& f.ensures_spans@.len() == f.ensures@.len()
    &&& f.elided ==> f.body@.len() == 0
}

/// One source span per invariant constraint.
pub open spec fn invariant_wf(i: Invariant) -> bool {
    i.constraint_spans@.len() == i.constraints@.len()
}

/// The operators of one precedence level: `*` and `/` when `mul`, else
/// `+` and `-`.
pub open spec fn in_level(op: BinOp, mul: bool) -> bool {
    if mul { op is Mul || op is Div } else { op is Add || op is Sub }
}

/// `e` has an operator of that level at its root.
pub open spec fn at_level(e: Expr, mul: bool) -> bool {
    e matches Expr::Bin { op, .. } && in_level(op, mul)
}

/// `e` has `+` or `-` at its root.
pub open spec fn is_additive(e: Expr) -> bool {
    at_level(e, false)
}

/// The token `t` spells the operator `op`.
pub open spec fn spells_op(op: BinOp, t: Token) -> bool {
    ||| (op is Add && t is Plus)
    ||| (op is Sub && t is Minus)
    ||| (op is Mul && t is Star)
    ||| (op is Div && t is Slash)
}

/// The tokens `start..end` open with `(` and close with `)`.
pub open spec fn wrapped(toks: Seq<Spanned>, start: int, end: int) -> bool {
    &&& 0 <= start < end <= toks.len()
    &&& toks[start].0 is LParen
    &&& toks[end - 1].0 is RParen
}

/// The token before `end` is `)`.
pub open spec fn closes_paren(toks: Seq<Spanned>, end: int) -> bool {
    0 < end <= toks.len() && toks[end - 1].0 is RParen
}

/// `e`, read from the tokens `start..end`, groups the operators of its
/// level to the left: unless the whole range is in parentheses, such a
/// root is the operator token found between its left operand (read from
/// `start..m`) and its right operand, and a right operand with an operator
/// of the same level at its root closes a parenthesis at `end`. So
/// `a - b - c` reads `(a - b) - c` and `a / b / c` reads `(a / b) / c`;
/// `a - (b - c)` needs its parentheses.
pub open spec fn left_assoc(e: Expr, toks: Seq<Spanned>, start: int, end: int, mul: bool) -> bool
    decreases e,
{
    match e {
        Expr::Bin { op, lhs, rhs } => in_level(op, mul) ==> (wrapped(toks, start, end) || {
            &&& at_level(*rhs, mul) ==> closes_paren(toks, end)
            &&& exists|m: int| start < m < end && spells_op(op, #[trigger] toks[m].0)
                && left_assoc(*lhs, toks, start, m, mul)
        }),
        _ => true,
    }
}

/// No right operand along the chain of level-`mul` operators at the root of
/// `e` has an operator of that level at its root.
pub open spec fn nests_left(e: Expr, mul: bool) -> bool
    decreases e,
{
    match e {
        Expr::Bin { op, lhs, rhs } => in_level(op, mul) ==> !at_level(*rhs, mul) && nests_left(*lhs, mul),
        _ => true,
    }
}

/// Read from tokens with no parentheses, a chain of operators of one level
/// nests to the left all the way down: no right operand along it has an
/// operator of that level at its root.
pub proof fn lemma_left_assoc_without_parens(e: Expr, toks: Seq<Spanned>, start: int, end: int, mul: bool)
    requires
        left_assoc(e, toks, start, end, mul),
        0 <= start,
        end <= toks.len(),
        forall|k: int| start <= k < end ==> !(#[trigger] toks[k].0 is LParen) && !(toks[k].0 is RParen),
    ensures
        nests_left(e, mul),
    decreases e,
{
    match e {
        Expr::Bin { op, lhs, rhs } => {
            if in_level(op, mul) {
                assert(!wrapped(toks, start, end));
                let m = choose|m: int| start < m < end && spells_op(op, #[trigger] toks[m].0)
                    && left_assoc(*lhs, toks, start, m, mul);
                lemma_left_assoc_without_parens(*lhs, toks, start, m, mul);
            }
        },
        _ => {},
    }
}

/// The leftmost operand of `e`: what its left-hand chain of binary
/// operators, receivers, ranges and `?` starts from.
pub open spec fn leftmost(e: Expr) -> Expr
    decreases e,
{
    match e {
        Expr::Bin { lhs, .. } => leftmost(*lhs),
        Expr::MethodCall(m) => leftmost(*m.receiver),
        Expr::Index(ix) => leftmost(*ix.receiver),
        Expr::Try(x) => leftmost(*x),
        Expr::Range { lo, .. } => leftmost(*lo),
        _ => e,
    }
}

/// `e` is read from the tokens starting at `start`: a literal or a name it
/// starts from is the token there, unless that token opens a parenthesis.
pub open spec fn anchored(e: Expr, toks: Seq<Spanned>, start: int) -> bool {
    &&& 0 <= start < toks.len()
    &&& match leftmost(e) {
        Expr::Int(n) => toks[start].0 == Token::Int(n) || toks[start].0 is LParen,
        Expr::Var(v) => toks[start].0 == Token::Ident(v) || toks[start].0 is LParen
            || (toks[start].0 is KwResult && v@ == "Result"@),
        Expr::Field { base, .. } => toks[start].0 == Token::Ident(base) || toks[start].0 is LParen
            || (toks[start].0 is KwResult && base@ == "Result"@),
        _ => true,
    }
}

pub open spec fn item_wf(it: Item) -> bool {
    match it {
        Item::Func(f) => func_wf(f),
        Item::Invariant(i) => invariant_wf(i),
        _ => true,
    }
}

pub open spec fn module_wf(m: Module) -> bool {
    forall|k: int| 0 <= k < m.items@.len() ==> #[trigger] item_wf(m.items@[k])
}

impl Parser {
    /// The token buffer ends with the only `Eof`, the cursor is on a token,
    /// every offset can be turned into a span.
    pub closed spec fn inv(&self) -> bool {
        &&& self.tokens@.len() > 0
        &&& self.tokens@.last().0 is Eof
        &&& forall|k: int| 0 <= k < self.tokens@.len() - 1 ==> !(#[trigger] self.tokens@[k].0 is Eof)
        &&& forall|k: int| 0 <= k < self.tokens@.len() ==> #[trigger] self.tokens@[k].1 < usize::MAX
        &&& forall|k: int| 0 <= k < self.tokens@.len() ==> (#[trigger] self.tokens@[k].0 matches Token::Int(n) ==> n >= 0)
        &&& self.pos < self.tokens@.len()
        &&& self.line_index.wf()
    }

    /// Position of the cursor.
    pub closed spec fn cursor(&self) -> int {
        self.pos as int
    }

    /// The token under the cursor.
    pub closed spec fn cur(&self) -> Token {
        self.tokens@[self.pos as int].0
    }

    /// Same input, cursor not moved backwards.
    pub closed spec fn step(&self, from: &Parser) -> bool {
        &&& self.tokens == from.tokens
        &&& self.line_index == from.line_index
        &&& from.pos <= self.pos
    }

    fn new(tokens: Vec<Spanned>, line_index: LineIndex) -> (r: Self)
        requires
            tokens@.len() > 0,
            tokens@.last().0 is Eof,
            forall|k: int| 0 <= k < tokens@.len() - 1 ==> !(#[trigger] tokens@[k].0 is Eof),
            forall|k: int| 0 <= k < tokens@.len() ==> #[trigger] tokens@[k].1 < usize::MAX,
            forall|k: int| 0 <= k < tokens@.len() ==> (#[trigger] tokens@[k].0 matches Token::Int(n) ==> n >= 0),
            line_index.wf(),
        ensures
            r.inv(),
            r.cursor() == 0,
            r.toks() == tokens@,
    {
        Parser { tokens, pos: 0, line_index }
    }

    fn peek(&self) -> (r: &Token)
        requires
            self.inv(),
        ensures
            *r == self.cur(),
    {
        &self.tokens[self.pos].0
    }

    fn at_eof(&self) -> (r: bool)
        requires
            self.inv(),
        ensures
            r == (self.cur() is Eof),
    {
        match self.peek() {
            Token::Eof => true,
            _ => false,
        }
    }

    fn advance(&mut self)
        requires
            old(self).inv(),
            !(old(self).cur() is Eof),
        ensures
            final(self).inv(),
            final(self).step(old(self)),
            final(self).cursor() == old(self).cursor() + 1,
    {
        let n = self.tokens.len();
        assert(self.pos != self.tokens@.len() - 1);
        assert(self.pos < n - 1);
        self.pos = self.pos + 1;
    }

    /// Source span of the token about to be consumed.
    fn current_span(&self) -> (r: Span)
        requires
            self.inv(),
    {
        let start_offset = self.tokens[self.pos].1;
        self.line_index.span_at(start_offset)
    }

    fn mismatch(expected: &str, got: &Token) -> (r: String)
        ensures
            r@ == "expected "@ + expected@ + ", found "@ + describe_spec(*got),
    {
        let mut s = String::new();
        push_str(&mut s, "expected ");
        push_str(&mut s, expected);
        push_str(&mut s, ", found ");
        let d = got.describe();
        push_str(&mut s, d.as_str());
        s
    }

    /// Is the cursor on `t`? (`t` must carry no payload.)
    fn is(&self, t: &Token) -> (r: bool)
        requires
            self.inv(),
            !(*t is Ident),
            !(*t is Int),
        ensures
            r == (self.cur() == *t),
    {
        same_kind(self.peek(), t)
    }

    fn expect(&mut self, expected: Token) -> (r: Result<(), String>)
        requires
            old(self).inv(),
            !(expected is Eof),
            !(expected is Ident),
            !(expected is Int),
        ensures
            final(self).inv(),
            final(self).step(old(self)),
            r is Ok <==> old(self).cur() == expected,
            r is Ok ==> final(self).cursor() == old(self).cursor() + 1,
            r is Err ==> final(self).cursor() == old(self).cursor(),
    {
        if self.is(&expected) {
            self.advance();
            Ok(())
        } else {
            let d = expected.describe();
            Err(Self::mismatch(d.as_str(), self.peek()))
        }
    }

    fn expect_ident(&mut self) -> (r: Result<String, String>)
        requires
            old(self).inv(),
        ensures
            final(self).inv(),
            final(self).step(old(self)),
            r is Ok <==> old(self).cur() is Ident,
            r matches Ok(s) ==> old(self).cur() matches Token::Ident(n) && n@ == s@,
            r is Ok ==> final(self).cursor() == old(self).cursor() + 1,
    {
        match self.peek() {
            Token::Ident(s) => {
                let s = s.clone();
                self.advance();
                Ok(s)
            },
            other => Err(Self::mismatch("identifier", other)),
        }
    }

    /// Accept an identifier or the keyword `state` (used for attribute names
    /// like `@state(...)`).
    fn expect_ident_or_keyword(&mut self) -> (r: Result<String, String>)
        requires
            old(self).inv(),
        ensures
            final(self).inv(),
            final(self).step(old(self)),
            r is Ok <==> (old(self).cur() is Ident || old(self).cur() is KwState),
            r is Ok ==> final(self).cursor() == old(self).cursor() + 1,
    {
        match self.peek() {
            Token::Ident(s) => {
                let s = s.clone();
                self.advance();
                Ok(s)
            },
            Token::KwState => {
                self.advance();
                Ok(string_of("state"))
            },
            other => Err(Self::mismatch("identifier", other)),
        }
    }

    fn at_expr_start(&self) -> (r: bool)
        requires
            self.inv(),
        ensures
            r == expr_start_token(self.cur()),
    {
        match self.peek() {
            Token::Int(_) | Token::Ident(_) | Token::KwOld | Token::LParen | Token::Minus | Token::KwIf
            | Token::KwMatch | Token::KwForall | Token::KwResult | Token::KwOk | Token::KwErr => true,
            _ => false,
        }
    }

    // ---- program ----

    /// Parse a full source string into a list of modules.
    pub fn parse_source(src: &str) -> (r: Result<Vec<Module>, String>)
        ensures
            r is Ok ==> exists|toks: Seq<Spanned>| lexed(src@, toks),
            !lex_ok_from(src@, 0) ==> (r matches Err(e) && e@ == lex_error_from(src@, 0)),
            (lex_ok_from(src@, 0) && skip_gap(src@, 0) == src@.len() && src@.len() < usize::MAX)
                ==> (r matches Ok(ms) && ms@.len() == 0),
            r matches Ok(ms) ==> forall|k: int| 0 <= k < ms@.len() ==> #[trigger] module_wf(ms@[k]),
    {
        let tokens = lex(src)?;
        let n = tokens.len();
        let end_offset = tokens[n - 1].1;
        if end_offset == usize::MAX {
            return Err(string_of("source too large"));
        }
        let line_index = LineIndex::new(src);
        proof {
            let s = src@;
            assert(lexed(s, tokens@));
            assert forall|k: int| 0 <= k < tokens@.len() - 1 implies !(#[trigger] tokens@[k].0 is Eof) by {
                assert(crate::lexer::token_at(s, tokens@[k].1 as int, tokens@[k].2 as int, tokens@[k].0));
            }
            assert forall|k: int| 0 <= k < tokens@.len() implies #[trigger] tokens@[k].1 < usize::MAX by {
                if k < tokens@.len() - 1 {
                    assert(crate::lexer::token_at(s, tokens@[k].1 as int, tokens@[k].2 as int, tokens@[k].0));
                }
            }
            assert forall|k: int| 0 <= k < tokens@.len() implies (#[trigger] tokens@[k].0 matches Token::Int(v) ==> v >= 0) by {
                if k < tokens@.len() - 1 {
                    let (t, a, b) = tokens@[k];
                    assert(crate::lexer::token_at(s, a as int, b as int, t));
                    if t is Int && !crate::lexer::is_ident_start(s[a as int]) && crate::lexer::is_digit(s[a as int]) {
                        crate::lexer::lemma_digit_end_bounds(s, a as int);
                        crate::lexer::lemma_dec_value_nonneg(s.subrange(a as int, b as int));
                    }
                }
            }
        }
        let ghost blank = skip_gap(src@, 0) == src@.len();
        proof {
            if blank && tokens@.len() > 1 {
                assert(tokens@[0].1 == skip_gap(src@, scan_from(tokens@, 0)));
                assert(crate::lexer::token_at(src@, tokens@[0].1 as int, tokens@[0].2 as int, tokens@[0].0));
            }
        }
        let ghost tv = tokens@;
        let mut p = Parser::new(tokens, line_index);
        proof {
            if blank {
                assert(tv.len() == 1);
                assert(tv.last() == tv[0]);
                assert(p.cur() == p.toks()[0].0);
            }
        }
        let mut modules: Vec<Module> = Vec::new();
        if p.at_eof() {
            return Ok(modules);
        }
        while !p.at_eof()
            invariant
                p.inv(),
                lex_ok_from(src@, 0),
                !blank,
                blank == (skip_gap(src@, 0) == src@.len()),
                forall|k: int| 0 <= k < modules@.len() ==> #[trigger] module_wf(modules@[k]),
            decreases p.tokens@.len() - p.cursor(),
        {
            let m = p.parse_module()?;
            modules.push(m);
        }
        Ok(modules)
    }

    fn parse_module(&mut self) -> (r: Result<Module, String>)
        requires
            old(self).inv(),
        ensures
            final(self).inv(),
            final(self).step(old(self)),
            r is Ok ==> final(self).cursor() > old(self).cursor(),
            r matches Ok(m) ==> module_wf(m),
    {
        let mut attributes: Vec<Attribute> = Vec::new();
        while self.is(&Token::At)
            invariant
                self.inv(),
                self.step(old(self)),
            decreases self.tokens@.len() - self.cursor(),
        {
            let a = self.parse_attribute()?;
            attributes.push(a);
        }
        self.expect(Token::KwModule)?;
        let name = self.expect_ident()?;
        self.expect(Token::LBrace)?;
        let mut items: Vec<Item> = Vec::new();
        while !self.is(&Token::RBrace)
            invariant
                self.inv(),
                self.step(old(self)),
                self.cursor() > old(self).cursor(),
                forall|k: int| 0 <= k < items@.len() ==> #[trigger] item_wf(items@[k]),
            decreases self.tokens@.len() - self.cursor(),
        {
            let it = self.parse_item()?;
            items.push(it);
        }
        self.expect(Token::RBrace)?;
        Ok(Module { attributes, name, items })
    }

    fn parse_literal(&mut self) -> (r: Result<Literal, String>)
        requires
            old(self).inv(),
        ensures
            final(self).inv(),
            final(self).step(old(self)),
            r is Ok ==> final(self).cursor() == old(self).cursor() + 1,
            r is Ok <==> (old(self).cur() is Int || old(self).cur() is Ident),
            r matches Ok(l) ==> match (l, old(self).cur()) {
                (Literal::Int(a), Token::Int(b)) => a == b,
                (Literal::Ident(a), Token::Ident(b)) => a@ == b@,
                _ => false,
            },
            r matches Err(e) ==> e@ == "expected "@ + "literal in attribute"@ + ", found "@ + describe_spec(old(self).cur()),
    {
        match self.peek() {
            Token::Int(n) => {
                let n = *n;
                self.advance();
                Ok(Literal::Int(n))
            },
            Token::Ident(s) => {
                let s = s.clone();
                self.advance();
                Ok(Literal::Ident(s))
            },
            other => Err(Self::mismatch("literal in attribute", other)),
        }
    }

    fn parse_attribute(&mut self) -> (r: Result<Attribute, String>)
        requires
            old(self).inv(),
        ensures
            r is Ok <==> attr_end(old(self).toks(), old(self).cursor()) is Some,
            r is Ok ==> attr_end(old(self).toks(), old(self).cursor()) == Some(final(self).cursor()),
            final(self).inv(),
            final(self).step(old(self)),
            r is Ok ==> final(self).cursor() > old(self).cursor(),
    {
        self.expect(Token::At)?;
        let name = self.expect_ident_or_keyword()?;
        let mut args: Vec<Arg> = Vec::new();
        if self.is(&Token::LParen) {
            self.advance();
            if !self.is(&Token::RParen) {
                let ghost c0 = self.cursor();
                loop
                    invariant_except_break
                        self.inv(),
                        self.step(old(self)),
                        self.cursor() > old(self).cursor(),
                        c0 == old(self).cursor() + 3,
                        attr_end(old(self).toks(), old(self).cursor()) == match attr_args_end(self.toks(), c0) {
                            Some(q) => if tok(self.toks(), q) is RParen { Some(q + 1) } else { None },
                            None => None,
                        },
                        attr_args_end(self.toks(), c0) == attr_args_end(self.toks(), self.cursor()),
                    ensures
                        self.inv(),
                        self.step(old(self)),
                        self.cursor() > old(self).cursor(),
                        c0 == old(self).cursor() + 3,
                        attr_end(old(self).toks(), old(self).cursor()) == match attr_args_end(self.toks(), c0) {
                            Some(q) => if tok(self.toks(), q) is RParen { Some(q + 1) } else { None },
                            None => None,
                        },
                        attr_args_end(self.toks(), c0) == Some(self.cursor()),
                    decreases self.tokens@.len() - self.cursor(),
                {
                    let key = self.expect_ident()?;
                    if self.is(&Token::Assign) {
                        self.advance();
                        let lit = self.parse_literal()?;
                        args.push(Arg::Kv(key, lit));
                    } else {
                        args.push(Arg::Flag(key));
                    }
                    if self.is(&Token::Comma) {
                        self.advance();
                        continue;
                    }
                    break;
                }
            }
            self.expect(Token::RParen)?;
        }
        Ok(Attribute { name, args })
    }

    // ---- items ----

    fn parse_item(&mut self) -> (r: Result<Item, String>)
        requires
            old(self).inv(),
        ensures
            final(self).inv(),
            final(self).step(old(self)),
            r is Ok ==> final(self).cursor() > old(self).cursor(),
            r matches Ok(it) ==> item_wf(it),
    {
        let mut attributes: Vec<Attribute> = Vec::new();
        while self.is(&Token::At)
            invariant
                self.inv(),
                self.step(old(self)),
            decreases self.tokens@.len() - self.cursor(),
        {
            let a = self.parse_attribute()?;
            attributes.push(a);
        }
        match self.peek() {
            Token::KwInvariant => {
                if attributes.len() > 0 {
                    return Err(string_of("attributes are not supported on `invariant` items"));
                }
                Ok(Item::Invariant(self.parse_invariant()?))
            },
            Token::KwFunc => Ok(Item::Func(self.parse_func(attributes)?)),
            Token::KwStruct => {
                if attributes.len() > 0 {
                    return Err(string_of("attributes are not supported on `struct` items"));
                }
                Ok(Item::Struct(self.parse_struct_def()?))
            },
            Token::KwEnum => {
                if attributes.len() > 0 {
                    return Err(string_of("attributes are not supported on `enum` items"));
                }
                Ok(Item::Enum(self.parse_enum_def()?))
            },
            other => Err(Self::mismatch("`invariant`, `func`, `struct`, or `enum`", other)),
        }
    }

    fn parse_invariant(&mut self) -> (r: Result<Invariant, String>)
        requires
            old(self).inv(),
        ensures
            final(self).inv(),
            final(self).step(old(self)),
            r is Ok ==> final(self).cursor() > old(self).cursor(),
            r matches Ok(i) ==> invariant_wf(i),
    {
        let span = self.current_span();
        self.expect(Token::KwInvariant)?;
        let name = self.expect_ident()?;
        self.expect(Token::LBrace)?;
        let mut constraints: Vec<Expr> = Vec::new();
        let mut constraint_spans: Vec<Span> = Vec::new();
        while !self.is(&Token::RBrace)
            invariant
                self.inv(),
                self.step(old(self)),
                self.cursor() > old(self).cursor(),
                constraints@.len() == constraint_spans@.len(),
            decreases self.tokens@.len() - self.cursor(),
        {
            constraint_spans.push(self.current_span());
            let e = self.parse_expr()?;
            constraints.push(e);
            if self.is(&Token::Semicolon) {
                self.advance();
            }
        }
        self.expect(Token::RBrace)?;
        Ok(Invariant { name, constraints, span, constraint_spans })
    }

    fn parse_field_defs(&mut self) -> (r: Result<Vec<FieldDef>, String>)
        requires
            old(self).inv(),
        ensures
            r is Ok <==> fields_end(old(self).toks(), old(self).cursor()) is Some,
            r is Ok ==> fields_end(old(self).toks(), old(self).cursor()) == Some(final(self).cursor()),
            final(self).inv(),
            final(self).step(old(self)),
            r is Ok ==> final(self).cur() is RBrace,
    {
        let mut fields: Vec<FieldDef> = Vec::new();
        while !self.is(&Token::RBrace)
            invariant
                self.inv(),
                self.step(old(self)),
                fields_end(old(self).toks(), old(self).cursor()) == fields_end(self.toks(), self.cursor()),
            decreases self.tokens@.len() - self.cursor(),
        {
            let field_name = self.expect_ident()?;
            self.expect(Token::Colon)?;
            let ty = self.parse_type()?;
            fields.push(FieldDef { name: field_name, ty });
            if self.is(&Token::Comma) {
                self.advance();
            }
        }
        Ok(fields)
    }

    fn parse_struct_def(&mut self) -> (r: Result<StructDef, String>)
        requires
            old(self).inv(),
        ensures
            r is Ok <==> struct_end(old(self).toks(), old(self).cursor()) is Some,
            r is Ok ==> struct_end(old(self).toks(), old(self).cursor()) == Some(final(self).cursor()),
            final(self).inv(),
            final(self).step(old(self)),
            r is Ok ==> final(self).cursor() > old(self).cursor(),
    {
        self.expect(Token::KwStruct)?;
        let name = self.expect_ident()?;
        self.expect(Token::LBrace)?;
        let fields = self.parse_field_defs()?;
        self.expect(Token::RBrace)?;
        Ok(StructDef { name, fields })
    }

    fn parse_enum_def(&mut self) -> (r: Result<EnumDef, String>)
        requires
            old(self).inv(),
        ensures
            r is Ok <==> enum_end(old(self).toks(), old(self).cursor()) is Some,
            r is Ok ==> enum_end(old(self).toks(), old(self).cursor()) == Some(final(self).cursor()),
            final(self).inv(),
            final(self).step(old(self)),
            r is Ok ==> final(self).cursor() > old(self).cursor(),
    {
        self.expect(Token::KwEnum)?;
        let name = self.expect_ident()?;
        self.expect(Token::LBrace)?;
        let mut variants: Vec<VariantDef> = Vec::new();
        while !self.is(&Token::RBrace)
            invariant
                self.inv(),
                self.step(old(self)),
                self.cursor() > old(self).cursor(),
                enum_end(old(self).toks(), old(self).cursor()) == match variants_end(self.toks(), self.cursor()) {
                    Some(q) => if tok(self.toks(), q) is RBrace { Some(q + 1) } else { None },
                    None => None,
                },
            decreases self.tokens@.len() - self.cursor(),
        {
            let variant_name = self.expect_ident()?;
            let fields = if self.is(&Token::LBrace) {
                self.advance();
                let fs = self.parse_field_defs()?;
                self.expect(Token::RBrace)?;
                fs
            } else {
                Vec::new()
            };
            variants.push(VariantDef { name: variant_name, fields });
            if self.is(&Token::Comma) {
                self.advance();
            }
        }
        self.expect(Token::RBrace)?;
        Ok(EnumDef { name, variants })
    }

    // ---- functions ----

    fn parse_func(&mut self, attributes: Vec<Attribute>) -> (r: Result<Func, String>)
        requires
            old(self).inv(),
        ensures
            final(self).inv(),
            final(self).step(old(self)),
            r is Ok ==> final(self).cursor() > old(self).cursor(),
            r matches Ok(f) ==> func_wf(f),
    {
        let span = self.current_span();
        self.expect(Token::KwFunc)?;
        let name = self.expect_ident()?;
        self.expect(Token::LParen)?;
        let mut params: Vec<Param> = Vec::new();
        if !self.is(&Token::RParen) {
            loop
                invariant
                    self.inv(),
                    self.step(old(self)),
                    self.cursor() > old(self).cursor(),
                decreases self.tokens@.len() - self.cursor(),
            {
                let mutability = if self.is(&Token::KwMut) {
                    self.advance();
                    ParamMutability::Mutable
                } else {
                    ParamMutability::Immutable
                };
                let pname = self.expect_ident()?;
                self.expect(Token::Colon)?;
                let ty = self.parse_type()?;
                params.push(Param { name: pname, ty, mutability });
                if self.is(&Token::Comma) {
                    self.advance();
                    continue;
                }
                break;
            }
        }
        self.expect(Token::RParen)?;

        // Optional return type: `-> Type`
        let return_ty = if self.is(&Token::Arrow) {
            self.advance();
            Some(self.parse_type()?)
        } else {
            None
        };

        let mut reqs: Vec<Expr> = Vec::new();
        let mut enss: Vec<Expr> = Vec::new();
        let mut requires_spans: Vec<Span> = Vec::new();
        let mut ensures_spans: Vec<Span> = Vec::new();
        while self.is(&Token::KwRequires) || self.is(&Token::KwEnsures)
            invariant
                self.inv(),
                self.step(old(self)),
                self.cursor() > old(self).cursor(),
                requires_spans@.len() == reqs@.len(),
                ensures_spans@.len() == enss@.len(),
            decreases self.tokens@.len() - self.cursor(),
        {
            if self.is(&Token::KwRequires) {
                self.advance();
                requires_spans.push(self.current_span());
                let e = self.parse_expr()?;
                reqs.push(e);
            } else {
                self.advance();
                ensures_spans.push(self.current_span());
                let e = self.parse_expr()?;
                enss.push(e);
            }
        }

        // Body may be elided with `;` (intent-only) or given as `{ ... }`.
        let mut body: Vec<Stmt> = Vec::new();
        let elided;
        if self.is(&Token::Semicolon) {
            self.advance();
            elided = true;
        } else {
            self.expect(Token::LBrace)?;
            body = self.parse_block_stmts()?;
            self.expect(Token::RBrace)?;
            elided = false;
        }

        Ok(Func {
            attributes,
            name,
            params,
            return_ty,
            requires: reqs,
            ensures: enss,
            body,
            elided,
            span,
            requires_spans,
            ensures_spans,
        })
    }

    // ---- types ----

    fn parse_type(&mut self) -> (r: Result<Type, String>)
        requires
            old(self).inv(),
        ensures
            final(self).inv(),
            final(self).step(old(self)),
            r is Ok ==> final(self).cursor() > old(self).cursor(),
            r is Ok <==> type_end(old(self).toks(), old(self).cursor()) is Some,
            r is Ok ==> type_end(old(self).toks(), old(self).cursor()) == Some(final(self).cursor()),
        decreases old(self).tokens@.len() - old(self).cursor(),
    {
        match self.peek() {
            Token::KwResult => {
                self.advance();
                self.expect(Token::Lt)?;
                let ok = self.parse_type()?;
                self.expect(Token::Comma)?;
                let err = self.parse_type()?;
                self.expect(Token::Gt)?;
                Ok(Type::result(ok, err))
            },
            Token::LParen => {
                self.advance();
                let mut elems: Vec<Type> = Vec::new();
                let first = self.parse_type()?;
                elems.push(first);
                while self.is(&Token::Comma)
                    invariant
                        self.inv(),
                        self.step(old(self)),
                        self.cursor() > old(self).cursor(),
                        elems@.len() > 0,
                        types_end(old(self).toks(), old(self).cursor() + 1) == types_after(self.toks(), self.cursor()),
                        old(self).toks()[old(self).cursor()].0 is LParen,
                    decreases self.tokens@.len() - self.cursor(),
                {
                    self.advance();
                    let t = self.parse_type()?;
                    elems.push(t);
                }
                self.expect(Token::RParen)?;
                if elems.len() == 1 {
                    Ok(elems.remove(0))
                } else {
                    Ok(Type::Tuple(elems))
                }
            },
            Token::LSquare => {
                // Array or slice type: `[T; N]` or `[T]`
                self.advance();
                let elem_ty = self.parse_type()?;
                if self.is(&Token::Semicolon) {
                    self.advance();
                    let len: usize = match self.peek() {
                        Token::Int(n) => {
                            let n = *n;
                            self.advance();
                            n as usize
                        },
                        other => {
                            return Err(Self::mismatch("array length", other));
                        },
                    };
                    self.expect(Token::RSquare)?;
                    Ok(Type::Array(Box::new(elem_ty), len))
                } else {
                    self.expect(Token::RSquare)?;
                    Ok(Type::Slice(Box::new(elem_ty)))
                }
            },
            Token::Ident(name) => {
                let name = name.clone();
                self.advance();
                // Check for generic type: `Name<T, U>`
                if self.is(&Token::Lt) {
                    self.advance();
                    let mut args: Vec<Type> = Vec::new();
                    let first = self.parse_type()?;
                    args.push(first);
                    while self.is(&Token::Comma)
                        invariant
                            self.inv(),
                            self.step(old(self)),
                            self.cursor() > old(self).cursor() + 2,
                            types_end(old(self).toks(), old(self).cursor() + 2) == types_after(self.toks(), self.cursor()),
                            old(self).cursor() + 1 < old(self).toks().len(),
                            old(self).toks()[old(self).cursor()].0 is Ident,
                            old(self).toks()[old(self).cursor() + 1].0 is Lt,
                        decreases self.tokens@.len() - self.cursor(),
                    {
                        self.advance();
                        let t = self.parse_type()?;
                        args.push(t);
                    }
                    self.expect(Token::Gt)?;
                    Ok(Type::Generic(name, args))
                } else {
                    Ok(Type::Named(name))
                }
            },
            other => Err(Self::mismatch("type", other)),
        }
    }

    // ---- statements ----

    /// Statements up to (not including) the closing `}`.
    fn parse_block_stmts(&mut self) -> (r: Result<Vec<Stmt>, String>)
        requires
            old(self).inv(),
        ensures
            final(self).inv(),
            final(self).step(old(self)),
            r is Ok ==> final(self).cur() is RBrace,
        decreases old(self).tokens@.len() - old(self).cursor(), 3nat,
    {
        let mut body: Vec<Stmt> = Vec::new();
        while !self.is(&Token::RBrace)
            invariant
                self.inv(),
                self.step(old(self)),
            decreases self.tokens@.len() - self.cursor(),
        {
            let s = self.parse_stmt()?;
            body.push(s);
        }
        Ok(body)
    }

    fn parse_stmt(&mut self) -> (r: Result<Stmt, String>)
        requires
            old(self).inv(),
        ensures
            final(self).inv(),
            final(self).step(old(self)),
            r is Ok ==> final(self).cursor() > old(self).cursor(),
        decreases old(self).tokens@.len() - old(self).cursor(), 2nat,
    {
        match self.peek() {
            Token::KwMutate => {
                self.advance();
                self.expect(Token::KwState)?;
                self.expect(Token::LBrace)?;
                let mut assigns: Vec<Assign> = Vec::new();
                while !self.is(&Token::RBrace)
                    invariant
                        self.inv(),
                        self.step(old(self)),
                        self.cursor() > old(self).cursor(),
                    decreases self.tokens@.len() - self.cursor(),
                {
                    let a = self.parse_assign()?;
                    assigns.push(a);
                }
                self.expect(Token::RBrace)?;
                Ok(Stmt::MutateState(assigns))
            },
            Token::KwLet => {
                self.advance();
                let name = self.expect_ident()?;
                let ty = if self.is(&Token::Colon) {
                    self.advance();
                    Some(self.parse_type()?)
                } else {
                    None
                };
                self.expect(Token::Assign)?;
                let value = self.parse_expr()?;
                if self.is(&Token::Semicolon) {
                    self.advance();
                }
                Ok(Stmt::Let(LetBinding { name, ty, value }))
            },
            Token::KwIf => self.parse_if_stmt_as_stmt(),
            Token::KwMatch => self.parse_match_stmt(),
            Token::KwReturn => {
                self.advance();
                if self.is(&Token::Semicolon) {
                    self.advance();
                    Ok(Stmt::Return(None))
                } else if self.at_expr_start() {
                    let expr = self.parse_expr()?;
                    if self.is(&Token::Semicolon) {
                        self.advance();
                    }
                    Ok(Stmt::Return(Some(expr)))
                } else {
                    Ok(Stmt::Return(None))
                }
            },
            _ => {
                // An assignment, or an expression statement.
                let expr = self.parse_expr()?;
                let op = if self.is(&Token::Assign) {
                    Some(AssignOp::Plain)
                } else if self.is(&Token::PlusAssign) {
                    Some(AssignOp::Add)
                } else if self.is(&Token::MinusAssign) {
                    Some(AssignOp::Sub)
                } else {
                    None
                };
                match op {
                    Some(op) => {
                        self.advance();
                        let value = self.parse_expr()?;
                        if self.is(&Token::Semicolon) {
                            self.advance();
                        }
                        Ok(Stmt::Assign(Assign { target: expr, op, value }))
                    },
                    None => {
                        // Expression statement (e.g., a call): kept as an
                        // assignment of the placeholder value 0.
                        if self.is(&Token::Semicolon) {
                            self.advance();
                        }
                        Ok(Stmt::Assign(Assign { target: expr, op: AssignOp::Plain, value: Expr::Int(0) }))
                    },
                }
            },
        }
    }

    fn parse_if_stmt_as_stmt(&mut self) -> (r: Result<Stmt, String>)
        requires
            old(self).inv(),
            old(self).cur() is KwIf,
        ensures
            final(self).inv(),
            final(self).step(old(self)),
            r is Ok ==> final(self).cursor() > old(self).cursor(),
        decreases old(self).tokens@.len() - old(self).cursor(), 1nat,
    {
        self.expect(Token::KwIf)?;
        let condition = self.parse_expr()?;
        self.expect(Token::LBrace)?;
        let then_body = self.parse_block_stmts()?;
        self.expect(Token::RBrace)?;
        let else_body = if self.is(&Token::KwElse) {
            self.advance();
            self.expect(Token::LBrace)?;
            let body = self.parse_block_stmts()?;
            self.expect(Token::RBrace)?;
            Some(body)
        } else {
            None
        };
        Ok(Stmt::If(IfStmt { condition, then_body, else_body }))
    }

    fn parse_match_stmt(&mut self) -> (r: Result<Stmt, String>)
        requires
            old(self).inv(),
            old(self).cur() is KwMatch,
        ensures
            final(self).inv(),
            final(self).step(old(self)),
            r is Ok ==> final(self).cursor() > old(self).cursor(),
        decreases old(self).tokens@.len() - old(self).cursor(), 1nat,
    {
        self.expect(Token::KwMatch)?;
        let scrutinee = self.parse_expr()?;
        self.expect(Token::LBrace)?;
        let mut arms: Vec<MatchArm> = Vec::new();
        while !self.is(&Token::RBrace)
            invariant
                self.inv(),
                self.step(old(self)),
                self.cursor() > old(self).cursor(),
            decreases self.tokens@.len() - self.cursor(),
        {
            let pattern = self.parse_pattern()?;
            self.expect(Token::FatArrow)?;
            if self.is(&Token::LBrace) {
                self.advance();
                let body = self.parse_block_stmts()?;
                self.expect(Token::RBrace)?;
                arms.push(MatchArm { pattern, body });
            } else {
                let stmt = self.parse_stmt()?;
                let mut body: Vec<Stmt> = Vec::new();
                body.push(stmt);
                arms.push(MatchArm { pattern, body });
            }
        }
        self.expect(Token::RBrace)?;
        Ok(Stmt::Match(MatchStmt { scrutinee, arms }))
    }

    fn parse_assign(&mut self) -> (r: Result<Assign, String>)
        requires
            old(self).inv(),
        ensures
            final(self).inv(),
            final(self).step(old(self)),
            r is Ok ==> final(self).cursor() > old(self).cursor(),
    {
        let target = self.parse_expr()?;
        let op = if self.is(&Token::Assign) {
            AssignOp::Plain
        } else if self.is(&Token::PlusAssign) {
            AssignOp::Add
        } else if self.is(&Token::MinusAssign) {
            AssignOp::Sub
        } else {
            return Err(Self::mismatch("assignment operator", self.peek()));
        };
        self.advance();
        let value = self.parse_expr()?;
        if self.is(&Token::Semicolon) {
            self.advance();
        }
        Ok(Assign { target, op, value })
    }

    // ---- patterns ----

    fn parse_pattern(&mut self) -> (r: Result<Pattern, String>)
        requires
            old(self).inv(),
        ensures
            final(self).inv(),
            final(self).step(old(self)),
            r is Ok ==> final(self).cursor() > old(self).cursor(),
            r is Ok <==> pat_end(old(self).toks(), old(self).cursor()) is Some,
            r is Ok ==> pat_end(old(self).toks(), old(self).cursor()) == Some(final(self).cursor()),
            r matches Ok(pt) ==> match (pt, old(self).cur()) {
                (Pattern::Literal(a), Token::Int(b)) => a == b,
                (Pattern::Literal(_), Token::Minus) => true,
                (Pattern::Var(a), Token::Ident(b)) => a@ == b@,
                (Pattern::Constructor(a, _), Token::Ident(b)) => a@ == b@,
                (Pattern::Wildcard, Token::UnderScore) => true,
                _ => false,
            },
        decreases old(self).tokens@.len() - old(self).cursor(),
    {
        match self.peek() {
            Token::Int(n) => {
                let n = *n;
                self.advance();
                Ok(Pattern::Literal(n))
            },
            Token::Minus => {
                self.advance();
                match self.peek() {
                    Token::Int(n) => {
                        let n = *n;
                        self.advance();
                        Ok(Pattern::Literal(-n))
                    },
                    _ => Err(string_of("expected integer after `-` in pattern")),
                }
            },
            Token::Ident(name) => {
                let name = name.clone();
                self.advance();
                if self.is(&Token::LParen) {
                    self.advance();
                    let mut fields: Vec<Pattern> = Vec::new();
                    if !self.is(&Token::RParen) {
                        let first = self.parse_pattern()?;
                        fields.push(first);
                        while self.is(&Token::Comma)
                            invariant
                                self.inv(),
                                self.step(old(self)),
                                self.cursor() > old(self).cursor() + 2,
                                pats_end(old(self).toks(), old(self).cursor() + 2) == pats_after(self.toks(), self.cursor()),
                                old(self).cursor() + 2 < old(self).toks().len(),
                                old(self).toks()[old(self).cursor()].0 is Ident,
                                old(self).toks()[old(self).cursor() + 1].0 is LParen,
                                !(old(self).toks()[old(self).cursor() + 2].0 is RParen),
                            decreases self.tokens@.len() - self.cursor(),
                        {
                            self.advance();
                            let p = self.parse_pattern()?;
                            fields.push(p);
                        }
                    }
                    self.expect(Token::RParen)?;
                    Ok(Pattern::Constructor(name, fields))
                } else {
                    Ok(Pattern::Var(name))
                }
            },
            Token::UnderScore => {
                self.advance();
                Ok(Pattern::Wildcard)
            },
            other => Err(Self::mismatch("pattern", other)),
        }
    }

    // ---- expressions ----

    fn parse_expr(&mut self) -> (r: Result<Expr, String>)
        requires
            old(self).inv(),
        ensures
            final(self).inv(),
            final(self).step(old(self)),
            r is Ok ==> final(self).cursor() > old(self).cursor(),
            r matches Ok(e) ==> anchored(e, final(self).toks(), old(self).cursor()),
        decreases old(self).tokens@.len() - old(self).cursor(), 10nat,
    {
        self.parse_or()
    }

    fn parse_or(&mut self) -> (r: Result<Expr, String>)
        requires
            old(self).inv(),
        ensures
            final(self).inv(),
            final(self).step(old(self)),
            r is Ok ==> final(self).cursor() > old(self).cursor(),
            r matches Ok(e) ==> anchored(e, final(self).toks(), old(self).cursor()),
        decreases old(self).tokens@.len() - old(self).cursor(), 9nat,
    {
        let mut lhs = self.parse_and()?;
        while self.is(&Token::Or)
            invariant
                self.inv(),
                self.step(old(self)),
                self.cursor() > old(self).cursor(),
                anchored(lhs, self.toks(), old(self).cursor()),
            decreases self.tokens@.len() - self.cursor(),
        {
            self.advance();
            let rhs = self.parse_and()?;
            lhs = Expr::Bin { op: BinOp::Or, lhs: Box::new(lhs), rhs: Box::new(rhs) };
        }
        Ok(lhs)
    }

    fn parse_and(&mut self) -> (r: Result<Expr, String>)
        requires
            old(self).inv(),
        ensures
            final(self).inv(),
            final(self).step(old(self)),
            r is Ok ==> final(self).cursor() > old(self).cursor(),
            r matches Ok(e) ==> anchored(e, final(self).toks(), old(self).cursor()),
        decreases old(self).tokens@.len() - old(self).cursor(), 8nat,
    {
        let mut lhs = self.parse_cmp()?;
        while self.is(&Token::And)
            invariant
                self.inv(),
                self.step(old(self)),
                self.cursor() > old(self).cursor(),
                anchored(lhs, self.toks(), old(self).cursor()),
            decreases self.tokens@.len() - self.cursor(),
        {
            self.advance();
            let rhs = self.parse_cmp()?;
            lhs = Expr::Bin { op: BinOp::And, lhs: Box::new(lhs), rhs: Box::new(rhs) };
        }
        Ok(lhs)
    }

    fn cmp_op(&self) -> (r: Option<BinOp>)
        requires
            self.inv(),
        ensures
            r is Some ==> !(self.cur() is Eof),
            r == cmp_op_of(self.cur()),
    {
        match self.peek() {
            Token::EqEq => Some(BinOp::Eq),
            Token::Ne => Some(BinOp::Ne),
            Token::Lt => Some(BinOp::Lt),
            Token::Le => Some(BinOp::Le),
            Token::Gt => Some(BinOp::Gt),
            Token::Ge => Some(BinOp::Ge),
            _ => None,
        }
    }

    fn parse_cmp(&mut self) -> (r: Result<Expr, String>)
        requires
            old(self).inv(),
        ensures
            final(self).inv(),
            final(self).step(old(self)),
            r is Ok ==> final(self).cursor() > old(self).cursor(),
            r matches Ok(e) ==> anchored(e, final(self).toks(), old(self).cursor()),
        decreases old(self).tokens@.len() - old(self).cursor(), 7nat,
    {
        let lhs = self.parse_add()?;
        match self.cmp_op() {
            Some(op) => {
                self.advance();
                let rhs = self.parse_add()?;
                Ok(Expr::Bin { op, lhs: Box::new(lhs), rhs: Box::new(rhs) })
            },
            None => Ok(lhs),
        }
    }

    fn parse_add(&mut self) -> (r: Result<Expr, String>)
        requires
            old(self).inv(),
        ensures
            final(self).inv(),
            final(self).step(old(self)),
            r is Ok ==> final(self).cursor() > old(self).cursor(),
            r matches Ok(e) ==> left_assoc(e, final(self).toks(), old(self).cursor(), final(self).cursor(), false),
            r matches Ok(e) ==> anchored(e, final(self).toks(), old(self).cursor()),
        decreases old(self).tokens@.len() - old(self).cursor(), 6nat,
    {
        let mut lhs = self.parse_mul()?;
        loop
            invariant
                self.inv(),
                self.step(old(self)),
                self.cursor() > old(self).cursor(),
                anchored(lhs, self.toks(), old(self).cursor()),
                left_assoc(lhs, self.toks(), old(self).cursor(), self.cursor(), false),
            decreases self.tokens@.len() - self.cursor(),
        {
            let op = if self.is(&Token::Plus) {
                BinOp::Add
            } else if self.is(&Token::Minus) {
                BinOp::Sub
            } else {
                break;
            };
            let ghost m = self.cursor();
            let ghost prev = lhs;
            assert(spells_op(op, self.toks()[m].0));
            self.advance();
            let rhs = self.parse_mul()?;
            lhs = Expr::Bin { op, lhs: Box::new(lhs), rhs: Box::new(rhs) };
            proof {
                assert(self.toks() == old(self).toks());
                assert(left_assoc(prev, self.toks(), old(self).cursor(), m, false));
                assert(is_additive(rhs) ==> closes_paren(self.toks(), self.cursor()));
                assert(old(self).cursor() < m < self.cursor() && spells_op(op, self.toks()[m].0)
                    && left_assoc(prev, self.toks(), old(self).cursor(), m, false));
            }
        }
        Ok(lhs)
    }

    fn parse_mul(&mut self) -> (r: Result<Expr, String>)
        requires
            old(self).inv(),
        ensures
            final(self).inv(),
            final(self).step(old(self)),
            r is Ok ==> final(self).cursor() > old(self).cursor(),
            r matches Ok(e) && is_additive(e) ==> wrapped(old(self).toks(), old(self).cursor(), final(self).cursor()),
            r matches Ok(e) ==> left_assoc(e, final(self).toks(), old(self).cursor(), final(self).cursor(), true),
            r matches Ok(e) ==> anchored(e, final(self).toks(), old(self).cursor()),
        decreases old(self).tokens@.len() - old(self).cursor(), 5nat,
    {
        let mut lhs = self.parse_unary()?;
        loop
            invariant
                self.inv(),
                self.step(old(self)),
                self.cursor() > old(self).cursor(),
                anchored(lhs, self.toks(), old(self).cursor()),
                is_additive(lhs) ==> wrapped(old(self).toks(), old(self).cursor(), self.cursor()),
                left_assoc(lhs, self.toks(), old(self).cursor(), self.cursor(), true),
            decreases self.tokens@.len() - self.cursor(),
        {
            let op = if self.is(&Token::Star) {
                BinOp::Mul
            } else if self.is(&Token::Slash) {
                BinOp::Div
            } else {
                break;
            };
            let ghost m = self.cursor();
            let ghost prev = lhs;
            assert(spells_op(op, self.toks()[m].0));
            self.advance();
            let rhs = self.parse_unary()?;
            lhs = Expr::Bin { op, lhs: Box::new(lhs), rhs: Box::new(rhs) };
            proof {
                assert(self.toks() == old(self).toks());
                assert(left_assoc(prev, self.toks(), old(self).cursor(), m, true));
                assert(at_level(rhs, true) ==> closes_paren(self.toks(), self.cursor()));
                assert(old(self).cursor() < m < self.cursor() && spells_op(op, self.toks()[m].0)
                    && left_assoc(prev, self.toks(), old(self).cursor(), m, true));
            }
        }
        Ok(lhs)
    }

    fn parse_unary(&mut self) -> (r: Result<Expr, String>)
        requires
            old(self).inv(),
        ensures
            final(self).inv(),
            final(self).step(old(self)),
            r is Ok ==> final(self).cursor() > old(self).cursor(),
            r matches Ok(e) && e is Bin ==> wrapped(old(self).toks(), old(self).cursor(), final(self).cursor()),
            r matches Ok(e) ==> anchored(e, final(self).toks(), old(self).cursor()),
        decreases old(self).tokens@.len() - old(self).cursor(), 4nat,
    {
        if self.is(&Token::Minus) {
            self.advance();
            let expr = self.parse_unary()?;
            return Ok(Expr::Unary { op: UnOp::Neg, expr: Box::new(expr) });
        }
        self.parse_postfix()
    }

    fn parse_call_args(&mut self) -> (r: Result<Vec<Expr>, String>)
        requires
            old(self).inv(),
        ensures
            final(self).inv(),
            final(self).step(old(self)),
            old(self).cur() is RParen ==> (r matches Ok(a) && a@.len() == 0 && final(self).cursor() == old(self).cursor()),
            !(old(self).cur() is RParen) && r is Ok ==> (r matches Ok(a) && a@.len() > 0 && !(final(self).cur() is Comma)),
        decreases old(self).tokens@.len() - old(self).cursor(), 11nat,
    {
        let mut args: Vec<Expr> = Vec::new();
        if !self.is(&Token::RParen) {
            let first = self.parse_expr()?;
            args.push(first);
            while self.is(&Token::Comma)
                invariant
                    self.inv(),
                    self.step(old(self)),
                    args@.len() > 0,
                    !(old(self).cur() is RParen),
                decreases self.tokens@.len() - self.cursor(),
            {
                self.advance();
                let a = self.parse_expr()?;
                args.push(a);
            }
        }
        Ok(args)
    }

    /// Parse postfix operators: function calls, method calls, index, `?`,
    /// and ranges.
    fn parse_postfix(&mut self) -> (r: Result<Expr, String>)
        requires
            old(self).inv(),
        ensures
            final(self).inv(),
            final(self).step(old(self)),
            r is Ok ==> final(self).cursor() > old(self).cursor(),
            r matches Ok(e) && e is Bin ==> wrapped(old(self).toks(), old(self).cursor(), final(self).cursor()),
            r matches Ok(e) ==> anchored(e, final(self).toks(), old(self).cursor()),
        decreases old(self).tokens@.len() - old(self).cursor(), 3nat,
    {
        let mut expr = self.parse_primary()?;
        loop
            invariant
                self.inv(),
                self.step(old(self)),
                self.cursor() > old(self).cursor(),
                anchored(expr, self.toks(), old(self).cursor()),
                expr is Bin ==> wrapped(old(self).toks(), old(self).cursor(), self.cursor()),
            decreases self.tokens@.len() - self.cursor(),
        {
            if self.is(&Token::LParen) {
                // Function call
                self.advance();
                let args = self.parse_call_args()?;
                self.expect(Token::RParen)?;
                match expr {
                    Expr::Var(name) => {
                        expr = Expr::Call(CallExpr { func: name, args });
                    },
                    Expr::Field { base, field } => {
                        assert(leftmost(Expr::Var(base)) == Expr::Var(base));
                        expr = Expr::MethodCall(MethodCallExpr {
                            receiver: Box::new(Expr::Var(base)),
                            method: field,
                            args,
                        });
                    },
                    Expr::MethodCall(m) => {
                        // Chain: a.b(args1)(args2) is a call on the method result.
                        let mut func = pretty_simple(&m.receiver);
                        push_str(&mut func, ".");
                        push_str(&mut func, m.method.as_str());
                        expr = Expr::Call(CallExpr { func, args });
                    },
                    other => {
                        let mut msg = string_of("cannot call non-function expression `");
                        let p = pretty_simple(&other);
                        push_str(&mut msg, p.as_str());
                        push_str(&mut msg, "`");
                        return Err(msg);
                    },
                }
            } else if self.is(&Token::Dot) {
                self.advance();
                let field = self.expect_ident()?;
                expr = match expr {
                    Expr::Var(name) => Expr::Field { base: name, field },
                    other => Expr::MethodCall(MethodCallExpr {
                        receiver: Box::new(other),
                        method: field,
                        args: Vec::new(),
                    }),
                };
            } else if self.is(&Token::LSquare) {
                // Index: expr[index]
                self.advance();
                let index = self.parse_expr()?;
                self.expect(Token::RSquare)?;
                expr = Expr::Index(IndexExpr { receiver: Box::new(expr), index: Box::new(index) });
            } else if self.is(&Token::Question) {
                self.advance();
                expr = Expr::Try(Box::new(expr));
            } else if self.is(&Token::DotDot) {
                self.advance();
                let hi = self.parse_expr()?;
                expr = Expr::Range { lo: Box::new(expr), hi: Box::new(hi) };
            } else {
                break;
            }
        }
        Ok(expr)
    }

    fn parse_primary(&mut self) -> (r: Result<Expr, String>)
        requires
            old(self).inv(),
        ensures
            final(self).inv(),
            final(self).step(old(self)),
            r is Ok ==> final(self).cursor() > old(self).cursor(),
            r matches Ok(e) && e is Bin ==> wrapped(old(self).toks(), old(self).cursor(), final(self).cursor()),
            r matches Ok(e) ==> anchored(e, final(self).toks(), old(self).cursor()),
        decreases old(self).tokens@.len() - old(self).cursor(), 2nat,
    {
        match self.peek() {
            Token::Int(n) => {
                let n = *n;
                self.advance();
                Ok(Expr::Int(n))
            },
            Token::KwOld => {
                self.advance();
                self.expect(Token::LParen)?;
                let e = self.parse_expr()?;
                self.expect(Token::RParen)?;
                Ok(Expr::Old(Box::new(e)))
            },
            Token::LParen => {
                self.advance();
                let e = self.parse_expr()?;
                self.expect(Token::RParen)?;
                Ok(e)
            },
            Token::KwIf => self.parse_if_expr(),
            Token::KwMatch => self.parse_match_expr(),
            Token::KwForall => self.parse_forall_expr(),
            Token::KwResult => {
                // `Result` in expression position is treated as a name.
                self.advance();
                Ok(Expr::Var(string_of("Result")))
            },
            Token::KwOk => {
                self.advance();
                self.expect(Token::LParen)?;
                let e = self.parse_expr()?;
                self.expect(Token::RParen)?;
                let mut args: Vec<Expr> = Vec::new();
                args.push(e);
                Ok(Expr::Call(CallExpr { func: string_of("Ok"), args }))
            },
            Token::KwErr => {
                self.advance();
                self.expect(Token::LParen)?;
                let e = self.parse_expr()?;
                self.expect(Token::RParen)?;
                let mut args: Vec<Expr> = Vec::new();
                args.push(e);
                Ok(Expr::Call(CallExpr { func: string_of("Err"), args }))
            },
            Token::Ident(s) => {
                let s = s.clone();
                self.advance();
                // Aggregates `sum`, `min`, `max`, `count` only when followed
                // by `(`, so variables of those names still parse.
                let agg = aggregate_of(s.as_str());
                if agg.is_some() && self.is(&Token::LParen) {
                    let op = agg.unwrap();
                    self.advance();
                    let args = self.parse_call_args()?;
                    self.expect(Token::RParen)?;
                    Ok(Expr::Aggregate(AggregateExpr { op, args }))
                } else if self.is(&Token::Dot) {
                    self.advance();
                    let field = self.expect_ident()?;
                    Ok(Expr::Field { base: s, field })
                } else {
                    Ok(Expr::Var(s))
                }
            },
            other => Err(Self::mismatch("expression", other)),
        }
    }

    fn parse_if_expr(&mut self) -> (r: Result<Expr, String>)
        requires
            old(self).inv(),
            old(self).cur() is KwIf,
        ensures
            final(self).inv(),
            final(self).step(old(self)),
            r is Ok ==> final(self).cursor() > old(self).cursor(),
            r matches Ok(e) ==> e is If,
        decreases old(self).tokens@.len() - old(self).cursor(), 1nat,
    {
        self.expect(Token::KwIf)?;
        let condition = Box::new(self.parse_expr()?);
        self.expect(Token::LBrace)?;
        let then_expr = Box::new(self.parse_expr()?);
        self.expect(Token::RBrace)?;
        self.expect(Token::KwElse)?;
        self.expect(Token::LBrace)?;
        let else_expr = Box::new(self.parse_expr()?);
        self.expect(Token::RBrace)?;
        Ok(Expr::If(IfExpr { condition, then_expr, else_expr }))
    }

    fn parse_match_expr(&mut self) -> (r: Result<Expr, String>)
        requires
            old(self).inv(),
            old(self).cur() is KwMatch,
        ensures
            final(self).inv(),
            final(self).step(old(self)),
            r is Ok ==> final(self).cursor() > old(self).cursor(),
            r matches Ok(e) ==> e is Match,
        decreases old(self).tokens@.len() - old(self).cursor(), 1nat,
    {
        self.expect(Token::KwMatch)?;
        let scrutinee = Box::new(self.parse_expr()?);
        self.expect(Token::LBrace)?;
        let mut arms: Vec<ExprMatchArm> = Vec::new();
        while !self.is(&Token::RBrace)
            invariant
                self.inv(),
                self.step(old(self)),
                self.cursor() > old(self).cursor(),
            decreases self.tokens@.len() - self.cursor(),
        {
            let pattern = self.parse_pattern()?;
            self.expect(Token::FatArrow)?;
            let expr = self.parse_expr()?;
            arms.push(ExprMatchArm { pattern, expr });
            if self.is(&Token::Comma) {
                self.advance();
            }
        }
        self.expect(Token::RBrace)?;
        Ok(Expr::Match(MatchExpr { scrutinee, arms }))
    }

    fn parse_forall_expr(&mut self) -> (r: Result<Expr, String>)
        requires
            old(self).inv(),
            old(self).cur() is KwForall,
        ensures
            final(self).inv(),
            final(self).step(old(self)),
            r is Ok ==> final(self).cursor() > old(self).cursor(),
            r matches Ok(e) ==> e is Forall,
        decreases old(self).tokens@.len() - old(self).cursor(), 1nat,
    {
        self.expect(Token::KwForall)?;
        let var = self.expect_ident()?;
        self.expect(Token::Colon)?;
        let var_ty = self.parse_type()?;
        let domain = if self.is(&Token::KwIn) {
            self.advance();
            Some(Box::new(self.parse_expr()?))
        } else {
            None
        };
        self.expect(Token::LBrace)?;
        let body = Box::new(self.parse_expr()?);
        self.expect(Token::RBrace)?;
        Ok(Expr::Forall(ForallExpr { var, var_ty, domain, body }))
    }
}

/// Same variant (payload ignored).
fn same_kind(a: &Token, b: &Token) -> (r: bool)
    ensures
        r ==> (!(*b is Ident) && !(*b is Int) ==> *a == *b),
        r ==> (*b is Ident ==> *a is Ident),
        r ==> (*b is Int ==> *a is Int),
        !(*b is Ident) && !(*b is Int) && *a == *b ==> r,
{
    match (a, b) {
        (Token::Ident(_), Token::Ident(_)) => true,
        (Token::Int(_), Token::Int(_)) => true,
        (Token::At, Token::At) => true,
        (Token::LParen, Token::LParen) => true,
        (Token::RParen, Token::RParen) => true,
        (Token::LBrace, Token::LBrace) => true,
        (Token::RBrace, Token::RBrace) => true,
        (Token::LSquare, Token::LSquare) => true,
        (Token::RSquare, Token::RSquare) => true,
        (Token::Comma, Token::Comma) => true,
        (Token::Colon, Token::Colon) => true,
        (Token::Dot, Token::Dot) => true,
        (Token::DotDot, Token::DotDot) => true,
        (Token::Semicolon, Token::Semicolon) => true,
        (Token::Question, Token::Question) => true,
        (Token::Arrow, Token::Arrow) => true,
        (Token::FatArrow, Token::FatArrow) => true,
        (Token::Assign, Token::Assign) => true,
        (Token::PlusAssign, Token::PlusAssign) => true,
        (Token::MinusAssign, Token::MinusAssign) => true,
        (Token::Plus, Token::Plus) => true,
        (Token::Minus, Token::Minus) => true,
        (Token::Star, Token::Star) => true,
        (Token::Slash, Token::Slash) => true,
        (Token::EqEq, Token::EqEq) => true,
        (Token::Ne, Token::Ne) => true,
        (Token::Lt, Token::Lt) => true,
        (Token::Le, Token::Le) => true,
        (Token::Gt, Token::Gt) => true,
        (Token::Ge, Token::Ge) => true,
        (Token::And, Token::And) => true,
        (Token::Or, Token::Or) => true,
        (Token::UnderScore, Token::UnderScore) => true,
        (Token::KwModule, Token::KwModule) => true,
        (Token::KwInvariant, Token::KwInvariant) => true,
        (Token::KwFunc, Token::KwFunc) => true,
        (Token::KwRequires, Token::KwRequires) => true,
        (Token::KwEnsures, Token::KwEnsures) => true,
        (Token::KwMutate, Token::KwMutate) => true,
        (Token::KwState, Token::KwState) => true,
        (Token::KwOld, Token::KwOld) => true,
        (Token::KwLet, Token::KwLet) => true,
        (Token::KwIf, Token::KwIf) => true,
        (Token::KwElse, Token::KwElse) => true,
        (Token::KwMatch, Token::KwMatch) => true,
        (Token::KwReturn, Token::KwReturn) => true,
        (Token::KwResult, Token::KwResult) => true,
        (Token::KwOk, Token::KwOk) => true,
        (Token::KwErr, Token::KwErr) => true,
        (Token::KwForall, Token::KwForall) => true,
        (Token::KwIn, Token::KwIn) => true,
        (Token::KwMut, Token::KwMut) => true,
        (Token::KwStruct, Token::KwStruct) => true,
        (Token::KwEnum, Token::KwEnum) => true,
        (Token::Eof, Token::Eof) => true,
        _ => false,
    }
}

/// The tokens that can begin an expression.
pub open spec fn expr_start_token(t: Token) -> bool {
    t is Int || t is Ident || t is KwOld || t is LParen || t is Minus || t is KwIf || t is KwMatch
        || t is KwForall || t is KwResult || t is KwOk || t is KwErr
}

/// The comparison operator a token spells, if any.
pub open spec fn cmp_op_of(t: Token) -> Option<BinOp> {
    match t {
        Token::EqEq => Some(BinOp::Eq),
        Token::Ne => Some(BinOp::Ne),
        Token::Lt => Some(BinOp::Lt),
        Token::Le => Some(BinOp::Le),
        Token::Gt => Some(BinOp::Gt),
        Token::Ge => Some(BinOp::Ge),
        _ => None,
    }
}

/// The short rendering of an expression used in error messages.
pub open spec fn pretty_simple_spec(e: Expr) -> Seq<char>
    decreases e,
{
    match e {
        Expr::Int(n) => int_text(n as int),
        Expr::Var(v) => v@,
        Expr::Field { base, field } => base@ + "."@ + field@,
        Expr::Old(inner) => "old("@ + pretty_simple_spec(*inner) + ")"@,
        Expr::Unary { .. } => "<expr>"@,
        Expr::Bin { .. } => "<expr>"@,
        Expr::Call(c) => c.func@ + "(...)"@,
        Expr::MethodCall(m) => pretty_simple_spec(*m.receiver) + "."@ + m.method@ + "(...)"@,
        Expr::Index(i) => pretty_simple_spec(*i.receiver) + "[...]"@,
        Expr::If(_) => "<if-expr>"@,
        Expr::Match(_) => "<match-expr>"@,
        Expr::Try(inner) => pretty_simple_spec(*inner) + "?"@,
        Expr::Forall(_) => "<forall>"@,
        Expr::Aggregate(a) => op_name_spec(a.op) + "(...)"@,
        Expr::Range { .. } => "<range>"@,
    }
}

/// The token at `p`, `Eof` past the end.
pub open spec fn tok(t: Seq<Spanned>, p: int) -> Token {
    if 0 <= p < t.len() { t[p].0 } else { Token::Eof }
}

/// One attribute argument, `key` or `key = literal`, at `c`: where it ends.
pub open spec fn attr_arg_end(t: Seq<Spanned>, c: int) -> Option<int> {
    if !(tok(t, c) is Ident) {
        None
    } else if tok(t, c + 1) is Assign {
        if tok(t, c + 2) is Int || tok(t, c + 2) is Ident { Some(c + 3) } else { None }
    } else {
        Some(c + 1)
    }
}

/// Comma-separated attribute arguments from `c`: where they end.
pub open spec fn attr_args_end(t: Seq<Spanned>, c: int) -> Option<int>
    decreases t.len() - c,
{
    if c < 0 || c >= t.len() {
        None
    } else {
        match attr_arg_end(t, c) {
            Some(d) => if c < d <= t.len() {
                if tok(t, d) is Comma { attr_args_end(t, d + 1) } else { Some(d) }
            } else {
                None
            },
            None => None,
        }
    }
}

/// An attribute `@name` or `@name(args)` at `p`: where it ends.
pub open spec fn attr_end(t: Seq<Spanned>, p: int) -> Option<int> {
    if tok(t, p) is At && (tok(t, p + 1) is Ident || tok(t, p + 1) is KwState) {
        if tok(t, p + 2) is LParen {
            if tok(t, p + 3) is RParen {
                Some(p + 4)
            } else {
                match attr_args_end(t, p + 3) {
                    Some(q) => if tok(t, q) is RParen { Some(q + 1) } else { None },
                    None => None,
                }
            }
        } else {
            Some(p + 2)
        }
    } else {
        None
    }
}

/// The field definitions `name: Type`, separated by optional commas, from
/// `c` up to (not including) the closing `}`: where they end.
pub open spec fn fields_end(t: Seq<Spanned>, c: int) -> Option<int>
    decreases t.len() - c,
{
    if c < 0 || c >= t.len() {
        None
    } else if tok(t, c) is RBrace {
        Some(c)
    } else if tok(t, c) is Ident && tok(t, c + 1) is Colon {
        match type_end(t, c + 2) {
            Some(q) => if c + 2 < q <= t.len() {
                if tok(t, q) is Comma { fields_end(t, q + 1) } else { fields_end(t, q) }
            } else {
                None
            },
            None => None,
        }
    } else {
        None
    }
}

/// `struct Name { fields }` at `p`: where it ends.
pub open spec fn struct_end(t: Seq<Spanned>, p: int) -> Option<int> {
    if tok(t, p) is KwStruct && tok(t, p + 1) is Ident && tok(t, p + 2) is LBrace {
        match fields_end(t, p + 3) {
            Some(q) => if tok(t, q) is RBrace { Some(q + 1) } else { None },
            None => None,
        }
    } else {
        None
    }
}

/// Where a variant `Name` or `Name { fields }` that starts at `c` ends.
pub open spec fn variant_end(t: Seq<Spanned>, c: int) -> Option<int> {
    if !(tok(t, c) is Ident) {
        None
    } else if tok(t, c + 1) is LBrace {
        match fields_end(t, c + 2) {
            Some(q) => if tok(t, q) is RBrace { Some(q + 1) } else { None },
            None => None,
        }
    } else {
        Some(c + 1)
    }
}

/// The variants of an enum, separated by optional commas, from `c` up to
/// (not including) the closing `}`.
pub open spec fn variants_end(t: Seq<Spanned>, c: int) -> Option<int>
    decreases t.len() - c,
{
    if c < 0 || c >= t.len() {
        None
    } else if tok(t, c) is RBrace {
        Some(c)
    } else {
        match variant_end(t, c) {
            Some(q) => if c < q <= t.len() {
                if tok(t, q) is Comma { variants_end(t, q + 1) } else { variants_end(t, q) }
            } else {
                None
            },
            None => None,
        }
    }
}

/// `enum Name { variants }` at `p`: where it ends.
pub open spec fn enum_end(t: Seq<Spanned>, p: int) -> Option<int> {
    if tok(t, p) is KwEnum && tok(t, p + 1) is Ident && tok(t, p + 2) is LBrace {
        match variants_end(t, p + 3) {
            Some(q) => if tok(t, q) is RBrace { Some(q + 1) } else { None },
            None => None,
        }
    } else {
        None
    }
}

/// Where a type that starts at token `p` ends, if one does.
pub open spec fn type_end(t: Seq<Spanned>, p: int) -> Option<int>
    decreases t.len() - p, 0nat,
{
    if p < 0 || p >= t.len() {
        None
    } else {
        match t[p].0 {
            Token::KwResult => if p + 1 < t.len() && t[p + 1].0 is Lt {
                match type_end(t, p + 2) {
                    Some(q) => if p + 2 < q < t.len() && t[q].0 is Comma {
                        match type_end(t, q + 1) {
                            Some(e) => if q + 1 < e < t.len() && t[e].0 is Gt { Some(e + 1) } else { None },
                            None => None,
                        }
                    } else {
                        None
                    },
                    None => None,
                }
            } else {
                None
            },
            Token::LParen => match types_end(t, p + 1) {
                Some(q) => if 0 <= q < t.len() && t[q].0 is RParen { Some(q + 1) } else { None },
                None => None,
            },
            Token::LSquare => match type_end(t, p + 1) {
                Some(q) => if p + 1 < q < t.len() && t[q].0 is Semicolon {
                    if q + 2 < t.len() && t[q + 1].0 is Int && t[q + 2].0 is RSquare { Some(q + 3) } else { None }
                } else if p + 1 < q < t.len() && t[q].0 is RSquare {
                    Some(q + 1)
                } else {
                    None
                },
                None => None,
            },
            Token::Ident(_) => if p + 1 < t.len() && t[p + 1].0 is Lt {
                match types_end(t, p + 2) {
                    Some(q) => if 0 <= q < t.len() && t[q].0 is Gt { Some(q + 1) } else { None },
                    None => None,
                }
            } else {
                Some(p + 1)
            },
            _ => None,
        }
    }
}

/// Where a comma-separated list of types that starts at `p` ends.
pub open spec fn types_end(t: Seq<Spanned>, p: int) -> Option<int>
    decreases t.len() - p, 1nat,
{
    if p < 0 || p >= t.len() {
        None
    } else {
        match type_end(t, p) {
            Some(q) => if p < q < t.len() && t[q].0 is Comma {
                types_end(t, q + 1)
            } else if p < q {
                Some(q)
            } else {
                None
            },
            None => None,
        }
    }
}

/// What follows a type-list element that ends at `c`.
pub open spec fn types_after(t: Seq<Spanned>, c: int) -> Option<int> {
    if 0 <= c < t.len() && t[c].0 is Comma { types_end(t, c + 1) } else { Some(c) }
}

/// Where a pattern that starts at token `p` ends, if one does.
pub open spec fn pat_end(t: Seq<Spanned>, p: int) -> Option<int>
    decreases t.len() - p, 0nat,
{
    if p < 0 || p >= t.len() {
        None
    } else {
        match t[p].0 {
            Token::Int(_) => Some(p + 1),
            Token::Minus => if p + 1 < t.len() && t[p + 1].0 is Int { Some(p + 2) } else { None },
            Token::Ident(_) => if p + 1 < t.len() && t[p + 1].0 is LParen {
                if p + 2 < t.len() && t[p + 2].0 is RParen {
                    Some(p + 3)
                } else {
                    match pats_end(t, p + 2) {
                        Some(q) => if 0 <= q < t.len() && t[q].0 is RParen { Some(q + 1) } else { None },
                        None => None,
                    }
                }
            } else {
                Some(p + 1)
            },
            Token::UnderScore => Some(p + 1),
            _ => None,
        }
    }
}

/// Where a comma-separated list of patterns that starts at `p` ends.
pub open spec fn pats_end(t: Seq<Spanned>, p: int) -> Option<int>
    decreases t.len() - p, 1nat,
{
    if p < 0 || p >= t.len() {
        None
    } else {
        match pat_end(t, p) {
            Some(q) => if p < q < t.len() && t[q].0 is Comma {
                pats_end(t, q + 1)
            } else if p < q {
                Some(q)
            } else {
                None
            },
            None => None,
        }
    }
}

/// What follows a list element that ends at `c`.
pub open spec fn pats_after(t: Seq<Spanned>, c: int) -> Option<int> {
    if 0 <= c < t.len() && t[c].0 is Comma { pats_end(t, c + 1) } else { Some(c) }
}

impl Parser {
    pub closed spec fn toks(&self) -> Seq<Spanned> {
        self.tokens@
    }
}

fn aggregate_of(s: &str) -> (r: Option<AggregateOp>)
    ensures
        r matches Some(op) ==> op_name_spec(op) == s@,
        r is None <==> !(s@ == "sum"@ || s@ == "min"@ || s@ == "max"@ || s@ == "count"@),
{
    if str_eq(s, "sum") {
        Some(AggregateOp::Sum)
    } else if str_eq(s, "min") {
        Some(AggregateOp::Min)
    } else if str_eq(s, "max") {
        Some(AggregateOp::Max)
    } else if str_eq(s, "count") {
        Some(AggregateOp::Count)
    } else {
        None
    }
}

/// Minimal pretty-printer for expressions (used in error messages).
fn pretty_simple(e: &Expr) -> (r: String)
    ensures
        r@ == pretty_simple_spec(*e),
    decreases e,
{
    match e {
        Expr::Int(n) => i64_text(*n),
        Expr::Var(v) => v.clone(),
        Expr::Field { base, field } => {
            let mut s = base.clone();
            push_str(&mut s, ".");
            push_str(&mut s, field.as_str());
            s
        },
        Expr::Old(inner) => {
            let mut s = string_of("old(");
            let t = pretty_simple(inner);
            push_str(&mut s, t.as_str());
            push_str(&mut s, ")");
            s
        },
        Expr::Unary { .. } => string_of("<expr>"),
        Expr::Bin { .. } => string_of("<expr>"),
        Expr::Call(c) => {
            let mut s = c.func.clone();
            push_str(&mut s, "(...)");
            s
        },
        Expr::MethodCall(m) => {
            let mut s = pretty_simple(&m.receiver);
            push_str(&mut s, ".");
            push_str(&mut s, m.method.as_str());
            push_str(&mut s, "(...)");
            s
        },
        Expr::Index(i) => {
            let mut s = pretty_simple(&i.receiver);
            push_str(&mut s, "[...]");
            s
        },
        Expr::If(_) => string_of("<if-expr>"),
        Expr::Match(_) => string_of("<match-expr>"),
        Expr::Try(inner) => {
            let mut s = pretty_simple(inner);
            push_str(&mut s, "?");
            s
        },
        Expr::Forall(_) => string_of("<forall>"),
        Expr::Aggregate(a) => {
            let mut s = string_of(a.op.op_name());
            push_str(&mut s, "(...)");
            s
        },
        Expr::Range { .. } => string_of("<range>"),
    }
}

/// Parse a full source string into a list of modules.
pub fn parse(src: &str) -> (r: Result<Vec<Module>, String>)
    ensures
        r is Ok ==> exists|toks: Seq<Spanned>| lexed(src@, toks),
        !lex_ok_from(src@, 0) ==> (r matches Err(e) && e@ == lex_error_from(src@, 0)),
        (lex_ok_from(src@, 0) && skip_gap(src@, 0) == src@.len() && src@.len() < usize::MAX)
            ==> (r matches Ok(ms) && ms@.len() == 0),
        r matches Ok(ms) ==> forall|k: int| 0 <= k < ms@.len() ==> #[trigger] module_wf(ms@[k]),
{
    Parser::parse_source(src)
}

} // verus!
