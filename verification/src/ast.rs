//! Abstract syntax tree of the Telos contract language.
//!
//! The grammar is "semantically erased": there is no implicit coercion and
//! every operation is named explicitly.

use vstd::prelude::*;
use crate::span::Span;
use crate::text::{string_of, str_eq};

verus! {

// ---------------------------------------------------------------------------
// Types
// ---------------------------------------------------------------------------

#[derive(Debug, PartialEq, Eq)]
pub enum Type {
    /// A user or built-in named type, e.g. `Wallet`, `PositiveInt`.
    Named(String),
    /// A generic type, e.g. `Result<Int, String>`, `Vec<Int>`.
    Generic(String, Vec<Type>),
    /// A tuple type, e.g. `(Int, String)`.
    Tuple(Vec<Type>),
    /// A fixed-length array type, e.g. `[Int; 5]`.
    Array(Box<Type>, usize),
    /// A slice type, e.g. `[Int]`.
    Slice(Box<Type>),
}

/// A structural copy of a type.
pub fn copy_type(t: &Type) -> (r: Type)
    ensures
        type_name_spec(r) == type_name_spec(*t),
        crate::tree::same_type(r, *t),
    decreases t,
{
    match t {
        Type::Named(s) => Type::Named(s.clone()),
        Type::Generic(s, args) => Type::Generic(s.clone(), copy_types(args)),
        Type::Tuple(args) => Type::Tuple(copy_types(args)),
        Type::Array(inner, n) => Type::Array(Box::new(copy_type(inner)), *n),
        Type::Slice(inner) => Type::Slice(Box::new(copy_type(inner))),
    }
}

/// A structural copy of a list of types.
pub fn copy_types(v: &Vec<Type>) -> (r: Vec<Type>)
    ensures
        r@.len() == v@.len(),
        crate::tree::same_types_from(r@, v@, 0),
    decreases v,
{
    let mut out: Vec<Type> = Vec::new();
    let mut i: usize = 0;
    while i < v.len()
        invariant
            i <= v.len(),
            out@.len() == i,
            forall|j: int| 0 <= j < i ==> crate::tree::same_type(#[trigger] out@[j], v@[j]),
        decreases v.len() - i,
    {
        proof {
            assert(decreases_to!(v => v@[i as int]));
        }
        let c = copy_type(&v[i]);
        out.push(c);
        i = i + 1;
    }
    proof { crate::tree::lemma_same_types_from(out@, v@, 0); }
    out
}

impl Clone for Type {
    fn clone(&self) -> (r: Self)
        ensures
            type_name_spec(r) == type_name_spec(*self),
    {
        copy_type(self)
    }
}

/// The outermost constructor name of a type.
pub open spec fn type_name_spec(t: Type) -> Seq<char> {
    match t {
        Type::Named(s) => s@,
        Type::Generic(s, _) => s@,
        Type::Tuple(_) => "Tuple"@,
        Type::Array(_, _) => "Array"@,
        Type::Slice(_) => "Slice"@,
    }
}

impl Type {
    /// Return the name of this type (the outermost constructor name).
    pub fn name(&self) -> (r: &str)
        ensures
            r@ == type_name_spec(*self),
    {
        match self {
            Type::Named(s) => s.as_str(),
            Type::Generic(s, _) => s.as_str(),
            Type::Tuple(_) => "Tuple",
            Type::Array(_, _) => "Array",
            Type::Slice(_) => "Slice",
        }
    }

    /// Convenience: build `Result<T, E>`.
    pub fn result(ok: Type, err: Type) -> (r: Self)
        ensures
            r matches Type::Generic(n, args) && n@ == "Result"@ && args@ == seq![ok, err],
    {
        let mut args: Vec<Type> = Vec::new();
        args.push(ok);
        args.push(err);
        Type::Generic(string_of("Result"), args)
    }

    /// Convenience: build the named type `Int`.
    pub fn int_ty() -> (r: Self)
        ensures
            r matches Type::Named(n) && n@ == "Int"@,
    {
        Type::Named(string_of("Int"))
    }

    /// Convenience: build the named type `PositiveInt`.
    pub fn positive_int() -> (r: Self)
        ensures
            r matches Type::Named(n) && n@ == "PositiveInt"@,
    {
        Type::Named(string_of("PositiveInt"))
    }

    /// Convenience: build the named type `Bool`.
    pub fn bool() -> (r: Self)
        ensures
            r matches Type::Named(n) && n@ == "Bool"@,
    {
        Type::Named(string_of("Bool"))
    }

    /// Convenience: build the Telos named type `String`.
    pub fn string() -> (r: Self)
        ensures
            r matches Type::Named(n) && n@ == "String"@,
    {
        Type::Named(string_of("String"))
    }
}

// ---------------------------------------------------------------------------
// Literals & attributes
// ---------------------------------------------------------------------------

#[derive(Debug, Clone, PartialEq, Eq)]
pub enum Literal {
    Int(i64),
    Ident(String),
}

#[derive(Debug, Clone, PartialEq, Eq)]
pub enum Arg {
    /// `@boundary(cpu_bound)`
    Flag(String),
    /// `@state(replication_factor = 3)`
    Kv(String, Literal),
}

#[derive(Debug, Clone, PartialEq, Eq)]
pub struct Attribute {
    pub name: String,
    pub args: Vec<Arg>,
}

// ---------------------------------------------------------------------------
// Modules & items
// ---------------------------------------------------------------------------

#[derive(Debug, Clone, PartialEq, Eq)]
pub struct Module {
    pub attributes: Vec<Attribute>,
    pub name: String,
    pub items: Vec<Item>,
}

#[derive(Debug, Clone, PartialEq, Eq)]
pub enum Item {
    Invariant(Invariant),
    Func(Func),
    Struct(StructDef),
    Enum(EnumDef),
}

/// The name of an item (function, invariant type, struct or enum name).
pub open spec fn item_name_spec(i: Item) -> Seq<char> {
    match i {
        Item::Func(f) => f.name@,
        Item::Invariant(v) => v.name@,
        Item::Struct(s) => s.name@,
        Item::Enum(e) => e.name@,
    }
}

impl Item {
    /// Return the name of this item (function name, invariant type name,
    /// struct name, or enum name).
    pub fn func_name(&self) -> (r: String)
        ensures
            r@ == item_name_spec(*self),
    {
        match self {
            Item::Func(f) => f.name.clone(),
            Item::Invariant(i) => i.name.clone(),
            Item::Struct(s) => s.name.clone(),
            Item::Enum(e) => e.name.clone(),
        }
    }
}

#[derive(Debug, Clone, PartialEq, Eq)]
pub struct Invariant {
    pub name: String,
    /// One or more boolean constraint expressions that must always hold.
    pub constraints: Vec<Expr>,
    /// Location of the `invariant` keyword.
    pub span: Span,
    /// Location of each constraint, parallel to `constraints`.
    pub constraint_spans: Vec<Span>,
}

// ---------------------------------------------------------------------------
// Struct / Enum definitions
// ---------------------------------------------------------------------------

#[derive(Debug, Clone, PartialEq, Eq)]
pub struct StructDef {
    pub name: String,
    pub fields: Vec<FieldDef>,
}

#[derive(Debug, Clone, PartialEq, Eq)]
pub struct EnumDef {
    pub name: String,
    pub variants: Vec<VariantDef>,
}

#[derive(Debug, Clone, PartialEq, Eq)]
pub struct FieldDef {
    pub name: String,
    pub ty: Type,
}

#[derive(Debug, Clone, PartialEq, Eq)]
pub struct VariantDef {
    pub name: String,
    pub fields: Vec<FieldDef>,
}

// ---------------------------------------------------------------------------
// Functions
// ---------------------------------------------------------------------------

#[derive(Debug, Clone, PartialEq, Eq)]
pub struct Param {
    pub name: String,
    pub ty: Type,
    pub mutability: ParamMutability,
}

#[derive(Debug, Clone, Copy, PartialEq, Eq, Structural)]
pub enum ParamMutability {
    Immutable,
    Mutable,
}

#[derive(Debug, Clone, PartialEq, Eq)]
pub struct Func {
    /// Item-level attributes, e.g. `@eject(rust)` marking a hand-written,
    /// trusted opaque implementation whose contracts are enforced at the
    /// boundary.
    pub attributes: Vec<Attribute>,
    pub name: String,
    pub params: Vec<Param>,
    pub return_ty: Option<Type>,
    pub requires: Vec<Expr>,
    pub ensures: Vec<Expr>,
    pub body: Vec<Stmt>,
    /// True when the body was elided with `;` (intent-only).
    pub elided: bool,
    /// Location of the `func` keyword.
    pub span: Span,
    /// Location of each `requires` clause, parallel to `requires`.
    pub requires_spans: Vec<Span>,
    /// Location of each `ensures` clause, parallel to `ensures`.
    pub ensures_spans: Vec<Span>,
}

/// Does some attribute in `attrs` carry the name `eject`?
pub open spec fn has_eject_spec(attrs: Seq<Attribute>) -> bool {
    exists|i: int| 0 <= i < attrs.len() && #[trigger] attrs[i].name@ == "eject"@
}

/// The first flag argument of an `eject` attribute in `attrs[from..]`.
pub open spec fn first_flag_spec(args: Seq<Arg>) -> Option<Seq<char>>
    decreases args.len(),
{
    if args.len() == 0 {
        None
    } else {
        match args[0] {
            Arg::Flag(f) => Some(f@),
            _ => first_flag_spec(args.drop_first()),
        }
    }
}

/// The language named by the first `eject` attribute that has a flag.
pub open spec fn eject_lang_spec(attrs: Seq<Attribute>) -> Option<Seq<char>>
    decreases attrs.len(),
{
    if attrs.len() == 0 {
        None
    } else if attrs[0].name@ == "eject"@ && first_flag_spec(attrs[0].args@) is Some {
        first_flag_spec(attrs[0].args@)
    } else {
        eject_lang_spec(attrs.drop_first())
    }
}

fn first_flag(args: &Vec<Arg>) -> (r: Option<&str>)
    ensures
        r matches Some(s) ==> first_flag_spec(args@) == Some(s@),
        r is None ==> first_flag_spec(args@) is None,
{
    let mut i: usize = 0;
    assert(args@.skip(0) == args@);
    while i < args.len()
        invariant
            i <= args.len(),
            first_flag_spec(args@) == first_flag_spec(args@.skip(i as int)),
        decreases args.len() - i,
    {
        assert(args@.skip(i as int).drop_first() == args@.skip(i + 1));
        match &args[i] {
            Arg::Flag(f) => {
                return Some(f.as_str());
            },
            _ => {},
        }
        i = i + 1;
    }
    None
}

impl Func {
    /// Whether this function is "ejected": its body is a trusted opaque block
    /// and only its outer contracts are enforced (at the boundary).
    pub fn is_ejected(&self) -> (r: bool)
        ensures
            r == has_eject_spec(self.attributes@),
    {
        let mut i: usize = 0;
        while i < self.attributes.len()
            invariant
                i <= self.attributes.len(),
                forall|j: int| 0 <= j < i ==> self.attributes@[j].name@ != "eject"@,
            decreases self.attributes.len() - i,
        {
            if str_eq(self.attributes[i].name.as_str(), "eject") {
                return true;
            }
            i = i + 1;
        }
        false
    }

    /// The explicit eject target language, if given as `@eject(rust)` /
    /// `@eject(go)`.
    pub fn eject_lang(&self) -> (r: Option<&str>)
        ensures
            r matches Some(s) ==> eject_lang_spec(self.attributes@) == Some(s@),
            r is None ==> eject_lang_spec(self.attributes@) is None,
    {
        let mut i: usize = 0;
        assert(self.attributes@.skip(0) == self.attributes@);
        while i < self.attributes.len()
            invariant
                i <= self.attributes.len(),
                eject_lang_spec(self.attributes@) == eject_lang_spec(self.attributes@.skip(i as int)),
            decreases self.attributes.len() - i,
        {
            assert(self.attributes@.skip(i as int).drop_first() == self.attributes@.skip(i + 1));
            let a = &self.attributes[i];
            if str_eq(a.name.as_str(), "eject") {
                let f = first_flag(&a.args);
                if f.is_some() {
                    return f;
                }
            }
            i = i + 1;
        }
        None
    }

    /// Whether this function returns `Result<T, E>`.
    pub fn returns_result(&self) -> (r: bool)
        ensures
            r == (self.return_ty matches Some(Type::Generic(n, _)) && n@ == "Result"@),
    {
        match &self.return_ty {
            Some(Type::Generic(name, _)) => str_eq(name.as_str(), "Result"),
            _ => false,
        }
    }
}

// ---------------------------------------------------------------------------
// Statements
// ---------------------------------------------------------------------------

#[derive(Debug, PartialEq, Eq)]
pub enum Stmt {
    /// `mutate state { ... }`
    MutateState(Vec<Assign>),
    /// A bare assignment outside of `mutate state`.
    Assign(Assign),
    /// `let name [: Type] = expr;`
    Let(LetBinding),
    /// `if expr { stmts } [else { stmts }]`
    If(IfStmt),
    /// `match expr { pattern => stmts, ... }`
    Match(MatchStmt),
    /// `return [expr];`
    Return(Option<Expr>),
}

#[derive(Debug, Clone, PartialEq, Eq)]
pub struct LetBinding {
    pub name: String,
    pub ty: Option<Type>,
    pub value: Expr,
}

#[derive(Debug, Clone, PartialEq, Eq)]
pub struct IfStmt {
    pub condition: Expr,
    pub then_body: Vec<Stmt>,
    pub else_body: Option<Vec<Stmt>>,
}

#[derive(Debug, Clone, PartialEq, Eq)]
pub struct MatchStmt {
    pub scrutinee: Expr,
    pub arms: Vec<MatchArm>,
}

#[derive(Debug, Clone, PartialEq, Eq)]
pub struct MatchArm {
    pub pattern: Pattern,
    pub body: Vec<Stmt>,
}

// ---------------------------------------------------------------------------
// Patterns
// ---------------------------------------------------------------------------

#[derive(Debug, PartialEq, Eq)]
pub enum Pattern {
    /// A literal integer pattern.
    Literal(i64),
    /// A binding pattern: `x` binds the value to name `x`.
    Var(String),
    /// A constructor pattern: `Variant(field, ...)` or `Variant` (unit).
    Constructor(String, Vec<Pattern>),
    /// A wildcard pattern: `_`.
    Wildcard,
}

// ---------------------------------------------------------------------------
// Assignments
// ---------------------------------------------------------------------------

#[derive(Debug, Clone, PartialEq, Eq)]
pub struct Assign {
    pub target: Expr,
    pub op: AssignOp,
    pub value: Expr,
}

#[derive(Debug, Clone, Copy, PartialEq, Eq, Structural)]
pub enum AssignOp {
    Plain,
    Add,
    Sub,
}

// ---------------------------------------------------------------------------
// Expressions
// ---------------------------------------------------------------------------

#[derive(Debug, PartialEq, Eq)]
pub enum Expr {
    Int(i64),
    /// A bare identifier, e.g. `amount`.
    Var(String),
    /// A field access, e.g. `from.balance`.
    Field {
        base: String,
        field: String,
    },
    /// `old(expr)`: the value of `expr` in the pre-state.
    Old(Box<Expr>),
    Unary {
        op: UnOp,
        expr: Box<Expr>,
    },
    Bin {
        op: BinOp,
        lhs: Box<Expr>,
        rhs: Box<Expr>,
    },
    /// A function call: `func(args)`.
    Call(CallExpr),
    /// A method call: `receiver.method(args)`.
    MethodCall(MethodCallExpr),
    /// An index expression: `receiver[index]`.
    Index(IndexExpr),
    /// An if expression: `if cond { a } else { b }`.
    If(IfExpr),
    /// A match expression: `match scrutinee { pattern => expr, ... }`.
    Match(MatchExpr),
    /// The try / error propagation operator: `expr?`.
    Try(Box<Expr>),
    /// A universal quantifier: `forall x: Type [in domain] { body }`.
    Forall(ForallExpr),
    /// An aggregate expression: `sum(expr)`, `min(a, b)`, etc.
    Aggregate(AggregateExpr),
    /// A half-open integer range `lo..hi`.
    Range {
        lo: Box<Expr>,
        hi: Box<Expr>,
    },
}

#[derive(Debug, Clone, PartialEq, Eq)]
pub struct CallExpr {
    pub func: String,
    pub args: Vec<Expr>,
}

#[derive(Debug, Clone, PartialEq, Eq)]
pub struct MethodCallExpr {
    pub receiver: Box<Expr>,
    pub method: String,
    pub args: Vec<Expr>,
}

#[derive(Debug, Clone, PartialEq, Eq)]
pub struct IndexExpr {
    pub receiver: Box<Expr>,
    pub index: Box<Expr>,
}

#[derive(Debug, Clone, PartialEq, Eq)]
pub struct IfExpr {
    pub condition: Box<Expr>,
    pub then_expr: Box<Expr>,
    pub else_expr: Box<Expr>,
}

#[derive(Debug, Clone, PartialEq, Eq)]
pub struct MatchExpr {
    pub scrutinee: Box<Expr>,
    pub arms: Vec<ExprMatchArm>,
}

#[derive(Debug, Clone, PartialEq, Eq)]
pub struct ExprMatchArm {
    pub pattern: Pattern,
    pub expr: Expr,
}

#[derive(Debug, Clone, PartialEq, Eq)]
pub struct ForallExpr {
    pub var: String,
    pub var_ty: Type,
    pub domain: Option<Box<Expr>>,
    pub body: Box<Expr>,
}

#[derive(Debug, Clone, PartialEq, Eq)]
pub struct AggregateExpr {
    pub op: AggregateOp,
    pub args: Vec<Expr>,
}

#[derive(Debug, Clone, Copy, PartialEq, Eq, Structural)]
pub enum AggregateOp {
    Sum,
    Min,
    Max,
    Count,
}

/// The surface name of an aggregate operator.
pub open spec fn op_name_spec(op: AggregateOp) -> Seq<char> {
    match op {
        AggregateOp::Sum => "sum"@,
        AggregateOp::Min => "min"@,
        AggregateOp::Max => "max"@,
        AggregateOp::Count => "count"@,
    }
}

impl AggregateOp {
    pub fn op_name(&self) -> (r: &'static str)
        ensures
            r@ == op_name_spec(*self),
    {
        match self {
            AggregateOp::Sum => "sum",
            AggregateOp::Min => "min",
            AggregateOp::Max => "max",
            AggregateOp::Count => "count",
        }
    }
}

#[derive(Debug, Clone, Copy, PartialEq, Eq, Structural)]
pub enum UnOp {
    Neg,
}

#[derive(Debug, Clone, Copy, PartialEq, Eq, Structural)]
pub enum BinOp {
    Add,
    Sub,
    Mul,
    Div,
    Eq,
    Ne,
    Lt,
    Le,
    Gt,
    Ge,
    And,
    Or,
}

} // verus!
