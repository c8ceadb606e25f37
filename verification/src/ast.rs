use vstd::prelude::*;

verus! {

/// Source location — line and column of a token in the source file.
/// Used to attach position info to AST nodes for error reporting.
#[derive(Debug, Clone, Copy, PartialEq, Eq, Structural)]
pub struct Span {
    /// 1-indexed line number
    pub line: usize,
    /// 1-indexed column number
    pub column: usize,
}

/// A node of type T with an attached source location.
/// Every significant AST node is wrapped in this.
#[derive(Debug)]
pub struct Spanned<T> {
    /// The actual AST node
    pub node: T,
    /// Where in the source this node came from
    pub span: Span,
}

/// A Spanned expression — the primary unit of evaluation
pub type SpannedExpr = Spanned<Expr>;

/// A Spanned statement — used inside function bodies and blocks
pub type SpannedStmt = Spanned<Stmt>;

/// A Spanned declaration — top-level items like functions, structs, bindings
pub type SpannedDecl = Spanned<Decl>;

/// A type annotation in the Dex type system.
/// Used in variable bindings, function params, and return types.
#[derive(Debug)]
pub enum Type {
    /// `int` — 64-bit signed integer
    Int,
    /// `flt` — 64-bit float
    Flt,
    /// `str` — UTF-8 string
    Str,
    /// `bool` — true or false
    Bool,
    /// `abyss` — the void/unit type, used for functions that return nothing
    Abyss,
    /// No annotation given — type will be inferred by the type checker
    Inferred,
    /// `[T]` — a list of elements of type T
    List(Box<Type>),
    /// `{K: V}` — a map from keys of type K to values of type V
    Mapping(Box<Type>, Box<Type>),
    /// `T | error` — a result type that can be either T or an error
    Result(Box<Type>),
    /// A named type like `Point` — resolved during type checking
    Named(String),
}

/// A function parameter or struct field.
/// `name: type_ann` e.g. `x: int`
#[derive(Debug)]
pub struct Param {
    /// The parameter name e.g. `x`
    pub name: String,
    /// The type annotation e.g. `Type::Int`. May be `Type::Inferred` if omitted.
    pub type_ann: Type,
}

/// A function declaration.
/// Syntax: `@(params) name -> return_type { body }`
#[derive(Debug)]
pub struct FuncDecl {
    /// The function name e.g. `add`
    pub name: String,
    /// The parameter list
    pub params: Vec<Param>,
    /// The declared return type e.g. `Type::Int`
    pub return_type: Type,
    /// The function body — a list of statements
    pub body: Vec<SpannedStmt>,
}

/// A struct declaration.
/// Syntax: `struct Name { fields... methods... }`
#[derive(Debug)]
pub struct StructDecl {
    /// The struct name e.g. `Point`
    pub name: String,
    /// The struct fields e.g. `x: flt, y: flt`
    pub variables: Vec<Param>,
    /// The struct methods — full function declarations
    pub methods: Vec<FuncDecl>,
}

/// A variable binding.
/// Syntax: `name: type = value` or `mut name = value`
#[derive(Debug)]
pub struct BindingDecl {
    /// Whether the binding is mutable (`mut`)
    pub mutable: bool,
    /// The variable name e.g. `x`
    pub name: String,
    /// Optional type annotation e.g. `Some(Type::Int)` for `x: int = 5`
    pub type_ann: Option<Type>,
    /// The value expression
    pub value: SpannedExpr,
}

/// A top-level declaration in a Dex program.
#[derive(Debug)]
pub enum Decl {
    /// A function declaration e.g. `@(x: int) add -> int { ... }`
    Func(FuncDecl),
    /// A struct declaration e.g. `struct Point { x: flt, y: flt }`
    Struct(StructDecl),
    /// A top-level variable binding e.g. `x = 10`
    Binding(BindingDecl),
}

/// A statement inside a function body or block.
#[derive(Debug)]
pub enum Stmt {
    /// A variable binding e.g. `x = 10` or `y: int = 5`
    Binding(BindingDecl),
    /// A standalone expression e.g. `print(x)` or `point1:move()`
    Expr(SpannedExpr),
}

/// A binary operator between two expressions.
#[derive(Debug, Clone, Copy, PartialEq, Eq, Structural)]
pub enum BinaryOp {
    /// `+`
    Add,
    /// `-`
    Minus,
    /// `*`
    Multiply,
    /// `/`
    Divide,
    /// `%`
    Modulo,
    /// `^`
    Exponent,
    /// `==`
    Equality,
    /// `!=`
    Nequality,
    /// `<`
    Lesser,
    /// `>`
    Greater,
    /// `<=`
    Leq,
    /// `>=`
    Geq,
    /// `&&`
    And,
    /// `||`
    Or,
}

/// A unary (single-operand) operator.
#[derive(Debug, Clone, Copy, PartialEq, Eq, Structural)]
pub enum UnaryOp {
    /// `!` — logical negation, only valid on `bool`
    Not,
    /// `-` — numeric negation, valid on `int` and `flt`
    Neg,
}

/// An expression — something that can be evaluated to produce a value.
#[derive(Debug)]
pub enum Expr {
    /// Integer literal e.g. `42`
    Int(i64),
    /// Float literal e.g. `3.14`, kept as its source text (a valid `f64` literal)
    Flt(String),
    /// String literal e.g. `"hello"`
    Str(String),
    /// Boolean literal `true` or `false`
    Bool(bool),
    /// A variable reference e.g. `x`
    Identifier(String),
    /// A binary operation e.g. `x + y`: (left operand, operator, right operand)
    Binary(Box<SpannedExpr>, BinaryOp, Box<SpannedExpr>),
    /// A unary operation e.g. `!x` or `-x`: (operator, operand)
    Unary(UnaryOp, Box<SpannedExpr>),
    /// A function call e.g. `foo(1, 2)`: (callee, arguments)
    Call(Box<SpannedExpr>, Vec<SpannedExpr>),
    /// A method call e.g. `point:distance(other)`: (receiver, method name, arguments)
    MethodCall(Box<SpannedExpr>, String, Vec<SpannedExpr>),
    /// A pipeline e.g. `list >> filter(f)`: (left, right)
    Pipeline(Box<SpannedExpr>, Box<SpannedExpr>),
    /// An assignment to an existing variable or field e.g. `self.x = 5`: (target, value)
    Assign(Box<SpannedExpr>, Box<SpannedExpr>),
    /// A lambda e.g. `n -> n * 2`: (parameter, body)
    Lambda(String, Box<SpannedExpr>),
    /// The `?` postfix error propagation operator e.g. `foo()?`
    Try(Box<SpannedExpr>),
    /// A list literal e.g. `[1, 2, 3]`
    ListLiteral(Vec<SpannedExpr>),
    /// A map literal e.g. `{"a": 1, "b": 2}`: its key-value pairs
    MapLiteral(Vec<(SpannedExpr, SpannedExpr)>),
    /// An if/else expression: (condition, then body, optional else body)
    If(Box<SpannedExpr>, Vec<SpannedStmt>, Option<Vec<SpannedStmt>>),
    /// A for loop e.g. `I (n in list) -> { ... }`: (loop variables, iterable, body)
    Loop(Vec<String>, Box<SpannedExpr>, Vec<SpannedStmt>),
    /// Field access on a struct e.g. `point.x`: (object, field name)
    FieldAccess(Box<SpannedExpr>, String),
    /// list expression, index expression
    Index(Box<SpannedExpr>, Box<SpannedExpr>),
}

// ---------------------------------------------------------------------------
// Mathematical views of the syntax tree: strings become `Seq<char>` and
// vectors become `Seq`.
// ---------------------------------------------------------------------------

pub enum TypeV {
    Int,
    Flt,
    Str,
    Bool,
    Abyss,
    Inferred,
    List(Box<TypeV>),
    Mapping(Box<TypeV>, Box<TypeV>),
    Result(Box<TypeV>),
    Named(Seq<char>),
}

pub struct ParamV {
    pub name: Seq<char>,
    pub type_ann: TypeV,
}

pub struct SExprV {
    pub node: ExprV,
    pub span: Span,
}

pub struct SStmtV {
    pub node: StmtV,
    pub span: Span,
}

pub struct SDeclV {
    pub node: DeclV,
    pub span: Span,
}

pub enum ExprV {
    Int(i64),
    Flt(Seq<char>),
    Str(Seq<char>),
    Bool(bool),
    Identifier(Seq<char>),
    Binary(Box<SExprV>, BinaryOp, Box<SExprV>),
    Unary(UnaryOp, Box<SExprV>),
    Call(Box<SExprV>, Seq<SExprV>),
    MethodCall(Box<SExprV>, Seq<char>, Seq<SExprV>),
    Pipeline(Box<SExprV>, Box<SExprV>),
    Assign(Box<SExprV>, Box<SExprV>),
    Lambda(Seq<char>, Box<SExprV>),
    Try(Box<SExprV>),
    ListLiteral(Seq<SExprV>),
    MapLiteral(Seq<(SExprV, SExprV)>),
    If(Box<SExprV>, Seq<SStmtV>, Option<Seq<SStmtV>>),
    Loop(Seq<Seq<char>>, Box<SExprV>, Seq<SStmtV>),
    FieldAccess(Box<SExprV>, Seq<char>),
    Index(Box<SExprV>, Box<SExprV>),
}

pub struct BindingV {
    pub mutable: bool,
    pub name: Seq<char>,
    pub type_ann: Option<TypeV>,
    pub value: SExprV,
}

pub enum StmtV {
    Binding(BindingV),
    Expr(SExprV),
}

pub struct FuncDeclV {
    pub name: Seq<char>,
    pub params: Seq<ParamV>,
    pub return_type: TypeV,
    pub body: Seq<SStmtV>,
}

pub struct StructDeclV {
    pub name: Seq<char>,
    pub variables: Seq<ParamV>,
    pub methods: Seq<FuncDeclV>,
}

pub enum DeclV {
    Func(FuncDeclV),
    Struct(StructDeclV),
    Binding(BindingV),
}

pub open spec fn type_view(t: Type) -> TypeV
    decreases t,
{
    match t {
        Type::Int => TypeV::Int,
        Type::Flt => TypeV::Flt,
        Type::Str => TypeV::Str,
        Type::Bool => TypeV::Bool,
        Type::Abyss => TypeV::Abyss,
        Type::Inferred => TypeV::Inferred,
        Type::List(inner) => TypeV::List(Box::new(type_view(*inner))),
        Type::Mapping(k, v) => TypeV::Mapping(Box::new(type_view(*k)), Box::new(type_view(*v))),
        Type::Result(inner) => TypeV::Result(Box::new(type_view(*inner))),
        Type::Named(n) => TypeV::Named(n@),
    }
}

pub open spec fn opt_type_view(t: Option<Type>) -> Option<TypeV> {
    match t {
        Some(t) => Some(type_view(t)),
        None => None,
    }
}

pub open spec fn param_view(p: Param) -> ParamV {
    ParamV { name: p.name@, type_ann: type_view(p.type_ann) }
}

pub open spec fn params_view(s: Seq<Param>) -> Seq<ParamV> {
    s.map_values(|p: Param| param_view(p))
}

pub open spec fn names_view(s: Seq<String>) -> Seq<Seq<char>> {
    s.map_values(|n: String| n@)
}

pub open spec fn expr_view(e: Expr) -> ExprV
    decreases e,
{
    match e {
        Expr::Int(n) => ExprV::Int(n),
        Expr::Flt(t) => ExprV::Flt(t@),
        Expr::Str(t) => ExprV::Str(t@),
        Expr::Bool(b) => ExprV::Bool(b),
        Expr::Identifier(n) => ExprV::Identifier(n@),
        Expr::Binary(l, op, r) => ExprV::Binary(Box::new(sexpr_view(*l)), op, Box::new(sexpr_view(*r))),
        Expr::Unary(op, x) => ExprV::Unary(op, Box::new(sexpr_view(*x))),
        Expr::Call(f, args) => ExprV::Call(Box::new(sexpr_view(*f)), sexprs_view(args@)),
        Expr::MethodCall(r, m, args) => ExprV::MethodCall(
            Box::new(sexpr_view(*r)),
            m@,
            sexprs_view(args@),
        ),
        Expr::Pipeline(l, r) => ExprV::Pipeline(Box::new(sexpr_view(*l)), Box::new(sexpr_view(*r))),
        Expr::Assign(l, r) => ExprV::Assign(Box::new(sexpr_view(*l)), Box::new(sexpr_view(*r))),
        Expr::Lambda(n, b) => ExprV::Lambda(n@, Box::new(sexpr_view(*b))),
        Expr::Try(x) => ExprV::Try(Box::new(sexpr_view(*x))),
        Expr::ListLiteral(xs) => ExprV::ListLiteral(sexprs_view(xs@)),
        Expr::MapLiteral(ps) => ExprV::MapLiteral(pairs_view(ps@)),
        Expr::If(c, body, els) => ExprV::If(
            Box::new(sexpr_view(*c)),
            sstmts_view(body@),
            match els {
                Some(b) => Some(sstmts_view(b@)),
                None => None,
            },
        ),
        Expr::Loop(vars, it, body) => ExprV::Loop(
            names_view(vars@),
            Box::new(sexpr_view(*it)),
            sstmts_view(body@),
        ),
        Expr::FieldAccess(x, f) => ExprV::FieldAccess(Box::new(sexpr_view(*x)), f@),
        Expr::Index(l, i) => ExprV::Index(Box::new(sexpr_view(*l)), Box::new(sexpr_view(*i))),
    }
}

pub open spec fn sexpr_view(e: SpannedExpr) -> SExprV
    decreases e,
{
    SExprV { node: expr_view(e.node), span: e.span }
}

pub open spec fn sexprs_view(s: Seq<SpannedExpr>) -> Seq<SExprV>
    decreases s,
{
    Seq::new(
        s.len(),
        |i: int|
            if 0 <= i < s.len() {
                sexpr_view(s[i])
            } else {
                SExprV { node: ExprV::Bool(false), span: Span { line: 0, column: 0 } }
            },
    )
}

pub open spec fn pairs_view(s: Seq<(SpannedExpr, SpannedExpr)>) -> Seq<(SExprV, SExprV)>
    decreases s,
{
    Seq::new(
        s.len(),
        |i: int|
            if 0 <= i < s.len() {
                (sexpr_view(s[i].0), sexpr_view(s[i].1))
            } else {
                (
                    SExprV { node: ExprV::Bool(false), span: Span { line: 0, column: 0 } },
                    SExprV { node: ExprV::Bool(false), span: Span { line: 0, column: 0 } },
                )
            },
    )
}

pub open spec fn binding_view(b: BindingDecl) -> BindingV
    decreases b,
{
    BindingV {
        mutable: b.mutable,
        name: b.name@,
        type_ann: opt_type_view(b.type_ann),
        value: sexpr_view(b.value),
    }
}

pub open spec fn stmt_view(s: Stmt) -> StmtV
    decreases s,
{
    match s {
        Stmt::Binding(b) => StmtV::Binding(binding_view(b)),
        Stmt::Expr(e) => StmtV::Expr(sexpr_view(e)),
    }
}

pub open spec fn sstmt_view(s: SpannedStmt) -> SStmtV
    decreases s,
{
    SStmtV { node: stmt_view(s.node), span: s.span }
}

pub open spec fn sstmts_view(s: Seq<SpannedStmt>) -> Seq<SStmtV>
    decreases s,
{
    Seq::new(
        s.len(),
        |i: int|
            if 0 <= i < s.len() {
                sstmt_view(s[i])
            } else {
                SStmtV {
                    node: StmtV::Expr(SExprV { node: ExprV::Bool(false), span: Span { line: 0, column: 0 } }),
                    span: Span { line: 0, column: 0 },
                }
            },
    )
}

pub open spec fn func_view(f: FuncDecl) -> FuncDeclV {
    FuncDeclV {
        name: f.name@,
        params: params_view(f.params@),
        return_type: type_view(f.return_type),
        body: sstmts_view(f.body@),
    }
}

pub open spec fn funcs_view(s: Seq<FuncDecl>) -> Seq<FuncDeclV> {
    s.map_values(|f: FuncDecl| func_view(f))
}

pub open spec fn decl_view(d: Decl) -> DeclV {
    match d {
        Decl::Func(f) => DeclV::Func(func_view(f)),
        Decl::Struct(s) => DeclV::Struct(
            StructDeclV { name: s.name@, variables: params_view(s.variables@), methods: funcs_view(s.methods@) },
        ),
        Decl::Binding(b) => DeclV::Binding(binding_view(b)),
    }
}

pub open spec fn sdecl_view(d: SpannedDecl) -> SDeclV {
    SDeclV { node: decl_view(d.node), span: d.span }
}

pub open spec fn sdecls_view(s: Seq<SpannedDecl>) -> Seq<SDeclV> {
    s.map_values(|d: SpannedDecl| sdecl_view(d))
}

} // verus!
