//! The syntax tree that the parser builds, and the operators shared with
//! the later representations.

use vstd::prelude::*;
use crate::span::SourceSpan;

verus! {

/// Prefix operators.
#[derive(Debug, Clone, Copy, PartialEq, Eq, Structural)]
pub enum UnaryOp {
    Neg,
    Not,
    BitNot,
    Ref,
    RefMut,
}

/// Infix operators.
#[derive(Debug, Clone, Copy, PartialEq, Eq, Structural)]
pub enum BinaryOp {
    Add,
    Sub,
    Mul,
    Div,
    Mod,
    Eq,
    Ne,
    Lt,
    Le,
    Gt,
    Ge,
    LogicalAnd,
    LogicalOr,
    BitAnd,
    BitOr,
    BitXor,
    Shl,
    Shr,
    Range,
    RangeInclusive,
}

/// Assignment operators.
#[derive(Debug, Clone, Copy, PartialEq, Eq, Structural)]
pub enum AssignOp {
    Assign,
    AddAssign,
    SubAssign,
    MulAssign,
    DivAssign,
    ModAssign,
    BitAndAssign,
    BitOrAssign,
    BitXorAssign,
    ShlAssign,
    ShrAssign,
}

#[derive(Debug, Clone, PartialEq, Eq)]
pub struct Ident {
    pub text: String,
    pub span: SourceSpan,
}

#[derive(Debug, Clone, PartialEq, Eq)]
pub struct Label {
    pub name: Ident,
    pub span: SourceSpan,
}

#[derive(Debug, Clone, PartialEq, Eq)]
pub struct DocComment {
    pub text: String,
    pub span: SourceSpan,
}

#[derive(Debug, Clone, Copy, PartialEq, Eq, Structural)]
pub enum Visibility {
    Public,
    Private,
}

#[derive(Debug, Clone, PartialEq, Eq)]
pub enum Linkage {
    Normal,
    Extern { link_name: Option<String> },
}

#[derive(Debug, Clone, PartialEq, Eq)]
pub struct DeclModifiers {
    pub mutable: bool,
    pub inline: bool,
    pub linkage: Linkage,
}

#[derive(Debug, Clone, PartialEq, Eq)]
pub struct DestructureName {
    pub mutable: bool,
    pub name: Ident,
}

#[derive(Debug, PartialEq, Eq)]
pub enum DeclTarget {
    Name(Ident),
    Associated { owner: Ident, member: Ident },
    Destructure(Vec<DestructureName>),
}

#[derive(Debug, PartialEq, Eq)]
pub struct ExternSignature {
    pub ty: TypeExpr,
    pub link_name: Option<String>,
}

#[derive(Debug, PartialEq, Eq)]
pub enum DeclValue {
    Expr(Expr),
    ExternSignature(ExternSignature),
}

#[derive(Debug, PartialEq, Eq)]
pub struct Declaration {
    pub docs: Vec<DocComment>,
    pub visibility: Visibility,
    pub modifiers: DeclModifiers,
    pub target: DeclTarget,
    pub annotation: Option<TypeExpr>,
    pub value: DeclValue,
    pub span: SourceSpan,
}

#[derive(Debug, PartialEq, Eq)]
pub enum Item {
    Declaration(Box<Declaration>),
}

#[derive(Debug, PartialEq, Eq)]
pub struct ModuleDecl {
    pub name: Ident,
    pub span: SourceSpan,
}

/// A parsed source file.
#[derive(Debug, PartialEq, Eq)]
pub struct AstFile {
    pub module_decl: ModuleDecl,
    pub items: Vec<Item>,
    pub span: SourceSpan,
}

#[derive(Debug, Clone, PartialEq, Eq)]
pub enum Literal {
    Integer(String),
    Float(String),
    String(String),
    Char(char),
    Bool(bool),
    Null,
}

#[derive(Debug, PartialEq, Eq)]
pub struct Expr {
    pub span: SourceSpan,
    pub kind: ExprKind,
}

#[derive(Debug, PartialEq, Eq)]
#[allow(inconsistent_fields)]
pub enum ExprKind {
    Literal(Literal),
    Ident(Ident),
    BuiltinIdent(Ident),
    Unary { op: UnaryOp, expr: Box<Expr> },
    Binary { op: BinaryOp, left: Box<Expr>, right: Box<Expr> },
    OrElse(OrElseExpr),
    Return { value: Option<Box<Expr>> },
    Comptime { expr: Box<Expr> },
    Inline { expr: Box<Expr> },
    Use { path: String },
    TypeLiteral(TypeExpr),
    OptionalUnwrap { expr: Box<Expr> },
    ErrorUnwrap { expr: Box<Expr> },
    DerefAccess { base: Box<Expr> },
    FieldAccess { base: Box<Expr>, field: Ident },
    TypeConstruct { ty_expr: Box<Expr>, fields: Vec<StructLiteralField> },
    Block(BlockExpr),
    EnumVariantConstruct(EnumVariantExpr),
    TupleLiteral(Vec<Expr>),
    ArrayLiteral(Vec<Expr>),
    If(IfExpr),
    Match(MatchExpr),
    For(ForExpr),
    Break(BreakExpr),
    Continue { label: Option<Label> },
    Defer(DeferExpr),
    Fn(FnExpr),
    Call(CallExpr),
    Slice(SliceExpr),
    Index { base: Box<Expr>, index: Box<Expr> },
    StructLiteral(StructLiteralExpr),
}

#[derive(Debug, PartialEq, Eq)]
pub struct OrElseExpr {
    pub value: Box<Expr>,
    pub error_binding: Option<Ident>,
    pub fallback: Box<Expr>,
}

#[derive(Debug, PartialEq, Eq)]
pub struct BlockExpr {
    pub label: Option<Label>,
    pub statements: Vec<Stmt>,
    pub tail_expr: Option<Box<Expr>>,
}

#[derive(Debug, Clone, PartialEq, Eq)]
pub struct IfCapture {
    pub bindings: Vec<Option<Ident>>,
}

#[derive(Debug, PartialEq, Eq)]
pub struct IfExpr {
    pub condition: Box<Expr>,
    pub capture: Option<IfCapture>,
    pub then_branch: Box<Expr>,
    pub else_branch: Option<Box<Expr>>,
}

#[derive(Debug, PartialEq, Eq)]
pub struct MatchExpr {
    pub scrutinee: Box<Expr>,
    pub arms: Vec<MatchArm>,
}

#[derive(Debug, PartialEq, Eq)]
pub struct MatchArm {
    pub pattern: Pattern,
    pub guard: Option<Expr>,
    pub value: Expr,
    pub span: SourceSpan,
}

#[derive(Debug, PartialEq, Eq)]
#[allow(inconsistent_fields)]
pub enum ForExpr {
    Infinite { body: Box<Expr> },
    Range { start: Box<Expr>, end: Box<Expr>, inclusive: bool, binding: Option<Ident>, body: Box<Expr> },
    Iterate { iterable: Box<Expr>, binding: Option<Ident>, body: Box<Expr> },
    WhileLike { condition: Box<Expr>, body: Box<Expr> },
}

#[derive(Debug, PartialEq, Eq)]
pub struct BreakExpr {
    pub label: Option<Label>,
    pub value: Option<Box<Expr>>,
}

#[derive(Debug, PartialEq, Eq)]
pub struct DeferExpr {
    pub error_binding: Option<Ident>,
    pub body: Box<Expr>,
}

#[derive(Debug, PartialEq, Eq)]
pub struct FnParam {
    pub name: Ident,
    pub ty: Option<TypeExpr>,
    pub default_value: Option<Expr>,
    pub comp: bool,
}

#[derive(Debug, PartialEq, Eq)]
pub enum FnBody {
    Block(BlockExpr),
    ArrowExpr(Box<Expr>),
}

#[derive(Debug, PartialEq, Eq)]
pub struct FnExpr {
    pub params: Vec<FnParam>,
    pub return_type: Option<TypeExpr>,
    pub body: FnBody,
}

#[derive(Debug, PartialEq, Eq)]
pub struct CallArg {
    pub name: Option<Ident>,
    pub value: Expr,
}

#[derive(Debug, PartialEq, Eq)]
pub struct CallExpr {
    pub callee: Box<Expr>,
    pub args: Vec<CallArg>,
}

#[derive(Debug, PartialEq, Eq)]
pub struct SliceExpr {
    pub base: Box<Expr>,
    pub start: Option<Box<Expr>>,
    pub end: Option<Box<Expr>>,
    pub inclusive: bool,
}

#[derive(Debug, PartialEq, Eq)]
pub struct StructLiteralField {
    pub name: Ident,
    pub value: Expr,
}

#[derive(Debug, PartialEq, Eq)]
pub struct StructLiteralExpr {
    pub root_type: Option<Ident>,
    pub fields: Vec<StructLiteralField>,
}

#[derive(Debug, PartialEq, Eq)]
pub struct EnumVariantExpr {
    pub root: Option<Ident>,
    pub variant: Ident,
    pub payload: Vec<Expr>,
}

#[derive(Debug, PartialEq, Eq)]
pub enum Stmt {
    Declaration(Box<Declaration>),
    Assignment(Box<AssignmentStmt>),
    Expr(Box<Expr>),
}

#[derive(Debug, PartialEq, Eq)]
pub struct AssignmentStmt {
    pub op: AssignOp,
    pub target: Expr,
    pub value: Expr,
    pub span: SourceSpan,
}

#[derive(Debug, Clone, PartialEq, Eq)]
pub enum PatternLiteral {
    Integer(String),
    Float(String),
    String(String),
    Char(char),
    Bool(bool),
    Null,
}

#[derive(Debug, PartialEq, Eq)]
pub struct Pattern {
    pub span: SourceSpan,
    pub kind: PatternKind,
}

#[derive(Debug, PartialEq, Eq)]
#[allow(inconsistent_fields)]
pub enum PatternKind {
    Wildcard,
    TypeLiteral(TypeExpr),
    EnumVariant { root: Option<Ident>, variant: Ident, bindings: Vec<Ident> },
    Literal(PatternLiteral),
    Range { start: Box<Pattern>, end: Box<Pattern>, inclusive: bool },
    IdentBind(Ident),
}

#[derive(Debug, PartialEq, Eq)]
pub struct TypeExpr {
    pub span: SourceSpan,
    pub kind: TypeExprKind,
}

#[derive(Debug, PartialEq, Eq)]
#[allow(inconsistent_fields)]
pub enum TypeExprKind {
    Named(Ident),
    Optional { inner: Box<TypeExpr> },
    Pointer { mutable: bool, inner: Box<TypeExpr> },
    Slice { mutable: bool, element: Box<TypeExpr> },
    Array { len: Option<Box<Expr>>, element: Box<TypeExpr> },
    Function(FnType),
    Struct(StructType),
    Enum(EnumType),
    Applied { callee: Ident, args: Vec<TypeExpr> },
    Errorable { ok: Box<TypeExpr>, errors: Vec<Ident> },
}

#[derive(Debug, PartialEq, Eq)]
pub struct FnTypeParam {
    pub name: Option<Ident>,
    pub ty: TypeExpr,
}

#[derive(Debug, PartialEq, Eq)]
pub struct FnType {
    pub params: Vec<FnTypeParam>,
    pub return_type: Box<TypeExpr>,
}

#[derive(Debug, PartialEq, Eq)]
pub struct StructFieldType {
    pub name: Ident,
    pub ty: TypeExpr,
    pub default_value: Option<Expr>,
}

#[derive(Debug, PartialEq, Eq)]
pub struct StructType {
    pub packed: bool,
    pub fields: Vec<StructFieldType>,
}

#[derive(Debug, PartialEq, Eq)]
pub struct EnumVariantType {
    pub name: Ident,
    pub payload: Option<TypeExpr>,
}

#[derive(Debug, PartialEq, Eq)]
pub struct EnumType {
    pub repr: Option<Box<TypeExpr>>,
    pub variants: Vec<EnumVariantType>,
    pub members: Vec<Declaration>,
}

} // verus!
