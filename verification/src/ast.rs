//! The expression tree of templates, and the expression nodes that the
//! evaluator works with.
use vstd::prelude::*;
use crate::compare::CmpOp;
use crate::number::TNumber;

verus! {

/// A position in a template: line and column, both 1-based.
#[derive(Debug, Clone, Copy, PartialEq, Eq, Structural)]
pub struct Span {
    pub line: u32,
    pub col: u32,
}

/// An expression with its position.
#[derive(Debug)]
pub struct Expr {
    pub kind: ExprKind,
    pub span: Span,
}

/// The kinds of expressions.
#[derive(Debug)]
pub enum ExprKind {
    /// A string literal without interpolations.
    Str(String),
    /// A string literal with `${...}` interpolations.
    InterpStr(Vec<StrPart>),
    /// A number literal.
    Num(TNumber),
    /// A boolean literal.
    Bool(bool),
    /// A variable reference.
    Ident(String),
    /// `target.name`.
    Dot { target: Box<Expr>, name: String },
    /// `target[key]`.
    DynKey { target: Box<Expr>, key: Box<Expr> },
    /// `callee(args)`.
    Call { callee: Box<Expr>, args: Vec<Expr> },
    /// `-x`.
    UnaryMinus(Box<Expr>),
    /// `!x`.
    Not(Box<Expr>),
    Add(Box<Expr>, Box<Expr>),
    Sub(Box<Expr>, Box<Expr>),
    Mul(Box<Expr>, Box<Expr>),
    Div(Box<Expr>, Box<Expr>),
    Mod(Box<Expr>, Box<Expr>),
    Eq(Box<Expr>, Box<Expr>),
    NotEq(Box<Expr>, Box<Expr>),
    Gt(Box<Expr>, Box<Expr>),
    Gte(Box<Expr>, Box<Expr>),
    Lt(Box<Expr>, Box<Expr>),
    Lte(Box<Expr>, Box<Expr>),
    And(Box<Expr>, Box<Expr>),
    Or(Box<Expr>, Box<Expr>),
    /// `start..end`, `start..<end`, `start..*size` or `start..`.
    Range { start: Box<Expr>, end: Option<Box<Expr>>, kind: RangeKind },
    /// `target!default` (or `target!` without a default).
    Default { target: Box<Expr>, default: Option<Box<Expr>> },
    /// `target??`.
    Exists(Box<Expr>),
    /// `target?name` or `target?name(args)`.
    BuiltIn { target: Box<Expr>, name: String, args: Option<Vec<Expr>> },
    /// `[a, b, ...]`.
    ListLit(Vec<Expr>),
    /// `{k: v, ...}`.
    HashLit(Vec<(Expr, Expr)>),
    /// `x -> body` or `(x, y) -> body`.
    Lambda { params: Vec<String>, body: Box<Expr> },
    /// `(x)`.
    Paren(Box<Expr>),
    /// `.name`.
    BuiltinVar(BuiltinVar),
}

/// A part of a string literal with interpolations.
#[derive(Debug)]
pub enum StrPart {
    Text(String),
    Interp(Box<Expr>),
}

/// The kinds of range expressions.
#[derive(Debug, Clone, Copy, PartialEq, Eq, Structural)]
pub enum RangeKind {
    /// `..`: the end is included.
    Inclusive,
    /// `..<`: the end is excluded.
    Exclusive,
    /// `..*`: the end gives the size, limited by what is there.
    SizeLimited,
}

/// The special variables (`.now`, `.lang`, `.version`, ...).
#[derive(Debug, Clone, Copy, PartialEq, Eq, Structural)]
pub enum BuiltinVar {
    True,
    False,
    Now,
    Namespace,
    Main,
    Globals,
    Locals,
    DataModel,
    Vars,
    Lang,
    Locale,
    LocaleObject,
    TimeZone,
    TemplateName,
    MainTemplateName,
    CurrentTemplateName,
    Node,
    Error,
    OutputEncoding,
    OutputFormat,
    AutoEsc,
    UrlEscapingCharset,
    Version,
    IncompatibleImprovements,
    Args,
    GetOptionalTemplate,
    GetOptionalTemplateCc,
}

impl Expr {
    /// An expression of the given kind at the given position.
    pub fn new(kind: ExprKind, span: Span) -> (r: Expr)
        ensures
            r.kind == kind,
            r.span == span,
    {
        Expr { kind, span }
    }
}

/// The arithmetic operators other than `+`.
#[derive(Debug, Clone, Copy, PartialEq, Eq, Structural)]
pub enum NumOp {
    Sub,
    Mul,
    Div,
    Mod,
}

/// The operator as written in templates.
pub open spec fn num_op_text(op: NumOp) -> Seq<char> {
    match op {
        NumOp::Sub => "-"@,
        NumOp::Mul => "*"@,
        NumOp::Div => "/"@,
        NumOp::Mod => "%"@,
    }
}

impl NumOp {
    /// The operator as written in templates.
    pub fn symbol(self) -> (r: &'static str)
        ensures
            r@ == num_op_text(self),
    {
        match self {
            NumOp::Sub => "-",
            NumOp::Mul => "*",
            NumOp::Div => "/",
            NumOp::Mod => "%",
        }
    }
}

/// A variable reference.
pub struct Identifier {
    pub name: String,
}

impl Identifier {
    /// A reference to the variable `name`.
    pub fn new(name: String) -> (r: Identifier)
        ensures
            r.name == name,
    {
        Identifier { name }
    }
}

/// A number literal.
pub struct NumberLiteral {
    pub value: TNumber,
}

impl NumberLiteral {
    /// The literal of `value`.
    pub fn new(value: TNumber) -> (r: NumberLiteral)
        ensures
            r.value == value,
    {
        NumberLiteral { value }
    }
}

/// A string literal.
pub struct StringLiteral {
    pub value: String,
}

impl StringLiteral {
    /// The literal of `value`.
    pub fn new(value: String) -> (r: StringLiteral)
        ensures
            r.value == value,
    {
        StringLiteral { value }
    }
}

/// `!target`.
pub struct NotExpression {
    pub target: Expr,
}

impl NotExpression {
    /// The negation of `target`.
    pub fn new(target: Expr) -> (r: NotExpression)
        ensures
            r.target == target,
    {
        NotExpression { target }
    }
}

/// `-target`.
pub struct UnaryPlusMinusExpression {
    pub target: Expr,
}

impl UnaryPlusMinusExpression {
    /// The negative of `target`.
    pub fn new(target: Expr) -> (r: UnaryPlusMinusExpression)
        ensures
            r.target == target,
    {
        UnaryPlusMinusExpression { target }
    }
}

/// `left op right` for the operators other than `+`.
pub struct ArithmeticExpression {
    pub left: Expr,
    pub right: Expr,
    pub op: NumOp,
}

impl ArithmeticExpression {
    /// The operation `op` on `left` and `right`.
    pub fn new(left: Expr, right: Expr, op: NumOp) -> (r: ArithmeticExpression)
        ensures
            r.left == left,
            r.right == right,
            r.op == op,
    {
        ArithmeticExpression { left, right, op }
    }
}

/// `left op right` for a comparison operator.
pub struct ComparisonExpression {
    pub left: Expr,
    pub right: Expr,
    pub op: CmpOp,
}

impl ComparisonExpression {
    /// The comparison `op` of `left` and `right`.
    pub fn new(left: Expr, right: Expr, op: CmpOp) -> (r: ComparisonExpression)
        ensures
            r.left == left,
            r.right == right,
            r.op == op,
    {
        ComparisonExpression { left, right, op }
    }
}

/// `target.name`.
pub struct Dot {
    pub target: Expr,
    pub name: String,
}

impl Dot {
    /// The subvariable `name` of `target`.
    pub fn new(target: Expr, name: String) -> (r: Dot)
        ensures
            r.target == target,
            r.name == name,
    {
        Dot { target, name }
    }
}

/// `target[key]`.
pub struct DynamicKeyName {
    pub target: Expr,
    pub key: Expr,
}

impl DynamicKeyName {
    /// The item of `target` at `key`.
    pub fn new(target: Expr, key: Expr) -> (r: DynamicKeyName)
        ensures
            r.target == target,
            r.key == key,
    {
        DynamicKeyName { target, key }
    }
}

/// `target!default`.
pub struct DefaultToExpression {
    pub target: Expr,
    pub default: Option<Expr>,
}

impl DefaultToExpression {
    /// `target`, or `default` when it is missing.
    pub fn new(target: Expr, default: Option<Expr>) -> (r: DefaultToExpression)
        ensures
            r.target == target,
            r.default == default,
    {
        DefaultToExpression { target, default }
    }
}

/// `target??`.
pub struct ExistsExpression {
    pub target: Expr,
}

impl ExistsExpression {
    /// Whether `target` exists.
    pub fn new(target: Expr) -> (r: ExistsExpression)
        ensures
            r.target == target,
    {
        ExistsExpression { target }
    }
}

/// A special variable.
pub struct BuiltinVariable {
    pub name: BuiltinVar,
}

impl BuiltinVariable {
    /// The special variable `name`.
    pub fn new(name: BuiltinVar) -> (r: BuiltinVariable)
        ensures
            r.name == name,
    {
        BuiltinVariable { name }
    }
}

/// A comment in a template.
pub struct Comment {
    pub text: String,
}

impl Comment {
    /// The comment with the given text.
    pub fn new(text: String) -> (r: Comment)
        ensures
            r.text == text,
    {
        Comment { text }
    }
}

/// `<#continue>`.
pub struct ContinueInstruction;

impl ContinueInstruction {
    /// The instruction.
    pub fn new() -> (r: ContinueInstruction) {
        ContinueInstruction
    }
}

/// `${expr}`.
pub struct DollarVariable {
    pub expr: Expr,
}

impl DollarVariable {
    /// The interpolation of `expr`.
    pub fn new(expr: Expr) -> (r: DollarVariable)
        ensures
            r.expr == expr,
    {
        DollarVariable { expr }
    }
}

/// `#{expr; mXMY}`: a number with `min_frac` to `max_frac` fraction digits.
pub struct NumericalOutput {
    pub expr: Expr,
    pub min_frac: u32,
    pub max_frac: u32,
}

impl NumericalOutput {
    /// The numerical interpolation of `expr`.
    pub fn new(expr: Expr, min_frac: u32, max_frac: u32) -> (r: NumericalOutput)
        ensures
            r.expr == expr,
            r.min_frac == min_frac,
            r.max_frac == max_frac,
    {
        NumericalOutput { expr, min_frac, max_frac }
    }
}

} // verus!
