//! The high-level intermediate representation consumed by MIR lowering.

use vstd::prelude::*;
use crate::ast::{AssignOp, BinaryOp, UnaryOp};
use crate::span::SourceSpan;

verus! {

/// A literal value.
#[derive(Debug, Clone, PartialEq, Eq)]
pub enum HirLiteral {
    Integer(String),
    Float(String),
    Bool(bool),
    Char(char),
    String(String),
    Null,
}

/// The mathematical value of a literal: its text as characters.
pub enum HirLiteralView {
    Integer(Seq<char>),
    Float(Seq<char>),
    Bool(bool),
    Char(char),
    String(Seq<char>),
    Null,
}

impl View for HirLiteral {
    type V = HirLiteralView;

    open spec fn view(&self) -> HirLiteralView {
        match self {
            HirLiteral::Integer(s) => HirLiteralView::Integer(s@),
            HirLiteral::Float(s) => HirLiteralView::Float(s@),
            HirLiteral::Bool(b) => HirLiteralView::Bool(*b),
            HirLiteral::Char(c) => HirLiteralView::Char(*c),
            HirLiteral::String(s) => HirLiteralView::String(s@),
            HirLiteral::Null => HirLiteralView::Null,
        }
    }
}

#[derive(Debug, PartialEq, Eq)]
pub struct HirExpr {
    pub span: SourceSpan,
    pub kind: HirExprKind,
}

#[derive(Debug, PartialEq, Eq)]
pub struct HirCallArg {
    pub name: Option<String>,
    pub value: HirExpr,
}

#[derive(Debug, Clone, PartialEq, Eq)]
pub struct HirIfCapture {
    pub binding: Option<String>,
}

#[derive(Debug, PartialEq, Eq)]
pub enum HirPattern {
    Wildcard,
    TypeLiteral(String),
    IdentBind(String),
    Literal(HirLiteral),
    EnumVariant { root: Option<String>, variant: String, bindings: Vec<String> },
    RangeLiteral { start: HirLiteral, end: HirLiteral, inclusive: bool },
    Other,
}

#[derive(Debug, PartialEq, Eq)]
pub struct HirMatchArm {
    pub pattern: HirPattern,
    pub guard: Option<HirExpr>,
    pub value: HirExpr,
}

#[derive(Debug, PartialEq, Eq)]
#[allow(inconsistent_fields)]
pub enum HirForExpr {
    Infinite { body: Box<HirExpr> },
    WhileLike { condition: Box<HirExpr>, body: Box<HirExpr> },
    Range { start: Box<HirExpr>, end: Box<HirExpr>, inclusive: bool, binding: Option<String>, body: Box<HirExpr> },
    Iterate { iterable: Box<HirExpr>, binding: Option<String>, body: Box<HirExpr> },
}

#[derive(Debug, PartialEq, Eq)]
#[allow(inconsistent_fields)]
pub enum HirExprKind {
    Ident(String),
    Literal(HirLiteral),
    Block { body: Vec<HirExpr> },
    Let { name: String, mutable: bool, value: Box<HirExpr> },
    Function {
        params: Vec<String>,
        param_types: Vec<Option<String>>,
        param_defaults: Vec<Option<HirExpr>>,
        has_explicit_return_type: bool,
        body: Box<HirExpr>,
    },
    Unary { op: UnaryOp, expr: Box<HirExpr> },
    Binary { op: BinaryOp, left: Box<HirExpr>, right: Box<HirExpr> },
    Assign { op: AssignOp, target: Box<HirExpr>, value: Box<HirExpr> },
    Call { callee: Box<HirExpr>, args: Vec<HirCallArg> },
    FieldAccess { base: Box<HirExpr>, field: String },
    DerefAccess { base: Box<HirExpr> },
    Index { base: Box<HirExpr>, index: Box<HirExpr> },
    Slice { base: Box<HirExpr>, start: Option<Box<HirExpr>>, end: Option<Box<HirExpr>>, inclusive: bool },
    StructLiteral { root: Option<String>, fields: Vec<(String, HirExpr)> },
    EnumVariant { root: Option<String>, variant: String, payload: Vec<HirExpr> },
    If {
        condition: Box<HirExpr>,
        capture: Option<HirIfCapture>,
        then_branch: Box<HirExpr>,
        else_branch: Option<Box<HirExpr>>,
    },
    Match { value: Box<HirExpr>, arms: Vec<HirMatchArm> },
    For(HirForExpr),
    Break { value: Option<Box<HirExpr>> },
    Continue,
    Return { value: Option<Box<HirExpr>> },
    Defer { error_binding: Option<String>, body: Box<HirExpr> },
    OrElse { value: Box<HirExpr>, error_binding: Option<String>, fallback: Box<HirExpr> },
    OptionalUnwrap { value: Box<HirExpr> },
    ErrorUnwrap { value: Box<HirExpr> },
    Use { path: String },
    TypeLiteral(String),
    Comptime { expr: Box<HirExpr> },
    Inline { expr: Box<HirExpr> },
    Unknown,
}

} // verus!
