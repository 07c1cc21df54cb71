//! The recursive-descent parser: tokens to a syntax tree, with diagnostics
//! for what it cannot read. Every parse step moves forward through the
//! tokens, only appends diagnostics, and labels each with the parsed file.

use vstd::prelude::*;
use crate::ast::{
    AssignOp, AssignmentStmt, AstFile, BinaryOp, BlockExpr, BreakExpr, CallArg, CallExpr, DeclModifiers, DeclTarget,
    DeclValue, Declaration, DeferExpr, DestructureName, DocComment, EnumType, EnumVariantExpr, EnumVariantType, Expr,
    ExprKind, ExternSignature, FnBody, FnExpr, FnParam, FnType, FnTypeParam, ForExpr, Ident, IfCapture, IfExpr, Item,
    Label, Linkage, Literal, MatchArm, MatchExpr, ModuleDecl, OrElseExpr, Pattern, PatternKind, SliceExpr, Stmt,
    StructFieldType, StructLiteralExpr, StructLiteralField, StructType, TypeExpr, TypeExprKind, UnaryOp, Visibility,
};
use crate::diagnostics::{Diagnostic, DiagnosticCode, DiagnosticPhase, Severity};
use crate::parser_text::{
    char_from_lexeme, expr_can_be_block_tail, pattern_literal_from_token, spec_char_from_lexeme,
    spec_string_from_lexeme, spec_token_description, stmt_span, string_from_lexeme, token_description,
};
use crate::span::{SourceSpan, merge_span, spec_default_span};
use crate::text::{chars_of_string, eq_str, push_str, push_string, string_eq_str, string_from_str};
use crate::token::{Delimiter, Keyword, Operator, Token, TokenKind};

verus! {

/// What parsing a file gives: the syntax tree, when the module declaration
/// could be read, and the diagnostics.
pub struct ParseOutput {
    pub ast: Option<AstFile>,
    pub diagnostics: Vec<Diagnostic>,
}

/// The parser's state: the tokens, the position of the current token, the
/// diagnostics so far, the file they are labelled with, and two context
/// flags that turn off `Name{...}` struct literals and labelled blocks
/// where a `{` must open a body instead.
pub struct Parser<'a> {
    pub tokens: &'a Vec<Token>,
    pub index: usize,
    pub diagnostics: Vec<Diagnostic>,
    pub file_path: String,
    pub disallow_ident_struct_literal: bool,
    pub disallow_labeled_block: bool,
}

/// A diagnostic of the parser: an error of code E3001 or E3002 with a
/// primary label on `file` at a span.
pub open spec fn is_parser_diagnostic(d: Diagnostic, file: Seq<char>) -> bool {
    &&& d.severity == Severity::Error
    &&& d.phase == DiagnosticPhase::Parser
    &&& (d.code == DiagnosticCode::E3001 || d.code == DiagnosticCode::E3002)
    &&& d.primary_label matches Some(l) && l.file@ == file && l.span is Some
}

/// A token kind that can be read as a name: an identifier or a keyword.
pub open spec fn is_name_kind(k: Option<TokenKind>) -> bool {
    k matches Some(TokenKind::Identifier) || k matches Some(TokenKind::Keyword(_))
}

/// A token that by itself is a whole primary expression: a literal or a
/// builtin name.
pub open spec fn is_literal_token(k: TokenKind) -> bool {
    match k {
        TokenKind::IntLiteral | TokenKind::FloatLiteral | TokenKind::StringLiteral | TokenKind::CharLiteral
        | TokenKind::BoolLiteral(_) | TokenKind::NullLiteral | TokenKind::BuiltinIdentifier => true,
        _ => false,
    }
}

/// `e` is the expression that the literal token of kind `k` and text
/// `lexeme` reads as: an integer or float literal keeps its text, a string
/// or char literal its decoded value.
pub open spec fn literal_token_expr(k: TokenKind, lexeme: Seq<char>, e: ExprKind) -> bool {
    match k {
        TokenKind::IntLiteral => e matches ExprKind::Literal(Literal::Integer(t)) && t@ == lexeme,
        TokenKind::FloatLiteral => e matches ExprKind::Literal(Literal::Float(t)) && t@ == lexeme,
        TokenKind::StringLiteral => e matches ExprKind::Literal(Literal::String(t)) && t@ == spec_string_from_lexeme(lexeme),
        TokenKind::CharLiteral => e == ExprKind::Literal(Literal::Char(spec_char_from_lexeme(lexeme))),
        TokenKind::BoolLiteral(b) => e == ExprKind::Literal(Literal::Bool(b)),
        TokenKind::NullLiteral => e == ExprKind::Literal(Literal::Null),
        TokenKind::BuiltinIdentifier => e matches ExprKind::BuiltinIdent(id) && id.text@ == lexeme,
        _ => false,
    }
}

/// A token that can begin a primary expression.
pub open spec fn starts_primary(k: TokenKind) -> bool {
    ||| is_literal_token(k)
    ||| k == TokenKind::Identifier
    ||| k == TokenKind::Delimiter(Delimiter::LParen)
    ||| k == TokenKind::Delimiter(Delimiter::LBracket)
    ||| k == TokenKind::Delimiter(Delimiter::LBrace)
    ||| k == TokenKind::Operator(Operator::Dot)
}

impl<'a> Parser<'a> {
    /// The position is within the tokens (at most one past the last).
    pub open spec fn wf(&self) -> bool {
        self.index <= self.tokens@.len()
    }

    /// The current token is `:` and a name follows it: a jump label.
    pub open spec fn at_jump_label(p: &Parser<'a>) -> bool {
        p.cur() == Some(TokenKind::Operator(Operator::Colon)) && is_name_kind(p.kind_at(p.index + 1))
    }

    /// The tokens from `i` read `[mut] name :` (not a labelled block or
    /// loop), `mut name =`, or `name.member :`.
    pub open spec fn spec_local_binding_at(&self, i: int) -> bool {
        let m = self.kind_at(i) == Some(TokenKind::Keyword(Keyword::Mut));
        let j = if m { i + 1 } else { i };
        &&& self.kind_at(j) == Some(TokenKind::Identifier)
        &&& {
            ||| !m && self.kind_at(j + 1) == Some(TokenKind::Operator(Operator::Dot)) && self.kind_at(j + 2)
                == Some(TokenKind::Identifier) && self.kind_at(j + 3) == Some(TokenKind::Operator(Operator::Colon))
            ||| self.kind_at(j + 1) == Some(TokenKind::Operator(Operator::Colon)) && !(self.kind_at(j + 2) == Some(
                TokenKind::Delimiter(Delimiter::LBrace),
            ) || self.kind_at(j + 2) == Some(TokenKind::Keyword(Keyword::For)))
            ||| m && self.kind_at(j + 1) == Some(TokenKind::Operator(Operator::Equal))
        }
    }

    /// The first index at or after `i` that holds no doc comment.
    pub open spec fn skip_docs(&self, i: int) -> int
        decreases self.tokens@.len() - i,
    {
        if 0 <= i < self.tokens@.len() && self.kind_at(i) == Some(TokenKind::DocComment) {
            self.skip_docs(i + 1)
        } else {
            i
        }
    }

    /// The tokens from `i` up to `close` read as function parameters: names,
    /// each optionally followed by `: type` or `= default`, separated by
    /// commas, ending exactly at `close`.
    pub open spec fn fn_params_from(&self, i: int, close: int) -> bool
        decreases close + 1 - i, 0nat,
    {
        if i >= close {
            i == close
        } else if !is_name_kind(self.kind_at(i)) {
            false
        } else if self.kind_at(i + 1) == Some(TokenKind::Delimiter(Delimiter::RParen)) {
            i + 1 == close
        } else if self.kind_at(i + 1) == Some(TokenKind::Delimiter(Delimiter::Comma)) {
            self.fn_params_from(i + 2, close)
        } else if self.kind_at(i + 1) == Some(TokenKind::Operator(Operator::Colon)) || self.kind_at(i + 1) == Some(
            TokenKind::Operator(Operator::Equal),
        ) {
            if i + 2 >= close {
                false
            } else {
                self.fn_param_tail_from(i + 2, i + 2, 0, 0, 0, close)
            }
        } else {
            false
        }
    }

    /// Scans a parameter's type or default from `c` (which began at
    /// `entry`) with the given open parenthesis, bracket and brace counts,
    /// up to an unmatched `)`, a `,` at depth zero, or `close`.
    pub open spec fn fn_param_tail_from(&self, entry: int, c: int, pd: nat, bd: nat, cd: nat, close: int) -> bool
        decreases close + 1 - c, 2nat,
    {
        if c > close {
            false
        } else if c == close {
            self.fn_params_resume(entry, c, close)
        } else {
            let top = pd == 0 && bd == 0 && cd == 0;
            match self.kind_at(c) {
                Some(TokenKind::Delimiter(Delimiter::LParen)) => self.fn_param_tail_from(entry, c + 1, pd + 1, bd, cd, close),
                Some(TokenKind::Delimiter(Delimiter::RParen)) => if pd == 0 {
                    self.fn_params_resume(entry, c, close)
                } else {
                    self.fn_param_tail_from(entry, c + 1, (pd - 1) as nat, bd, cd, close)
                },
                Some(TokenKind::Delimiter(Delimiter::LBracket)) => self.fn_param_tail_from(entry, c + 1, pd, bd + 1, cd, close),
                Some(TokenKind::Delimiter(Delimiter::RBracket)) => self.fn_param_tail_from(
                    entry,
                    c + 1,
                    pd,
                    if bd > 0 { (bd - 1) as nat } else { 0 },
                    cd,
                    close,
                ),
                Some(TokenKind::Delimiter(Delimiter::LBrace)) => self.fn_param_tail_from(entry, c + 1, pd, bd, cd + 1, close),
                Some(TokenKind::Delimiter(Delimiter::RBrace)) => self.fn_param_tail_from(
                    entry,
                    c + 1,
                    pd,
                    bd,
                    if cd > 0 { (cd - 1) as nat } else { 0 },
                    close,
                ),
                Some(TokenKind::Delimiter(Delimiter::Comma)) => if top {
                    self.fn_params_resume(entry, c, close)
                } else {
                    self.fn_param_tail_from(entry, c + 1, pd, bd, cd, close)
                },
                _ => self.fn_param_tail_from(entry, c + 1, pd, bd, cd, close),
            }
        }
    }

    /// After a parameter's type or default that began at `entry` and
    /// stopped at `c`: it must not be empty, and a `,` there is skipped.
    pub open spec fn fn_params_resume(&self, entry: int, c: int, close: int) -> bool
        decreases close + 1 - c, 1nat,
    {
        if c > close || c == entry {
            false
        } else if c < close && self.kind_at(c) == Some(TokenKind::Delimiter(Delimiter::Comma)) {
            self.fn_params_from(c + 1, close)
        } else {
            self.fn_params_from(c, close)
        }
    }

    /// The entries of an anonymous `.{ ... }` literal from `i` are all names,
    /// each possibly followed by `: value`, up to the closing `}` (or the
    /// end), and some entry has the value (or `saw` says one already had).
    pub open spec fn inferred_fields_from(&self, i: int, saw: bool) -> bool
        decreases self.tokens@.len() - i, 1nat,
    {
        if i < 0 || i >= self.tokens@.len() {
            saw
        } else if self.tokens@[i].kind == TokenKind::Delimiter(Delimiter::RBrace) {
            saw
        } else if self.tokens@[i].kind != TokenKind::Identifier {
            false
        } else if self.kind_at(i + 1) == Some(TokenKind::Operator(Operator::Colon)) {
            self.inferred_value_from(i + 2, 0, 0, 0, true)
        } else {
            self.inferred_value_from(i + 1, 0, 0, 0, saw)
        }
    }

    /// Scans an entry's value from `c` with the given open parenthesis,
    /// bracket and brace counts, up to a `,` or the closing `}` at depth
    /// zero; an unbalanced closer makes the literal not struct-shaped.
    pub open spec fn inferred_value_from(&self, c: int, pd: nat, bd: nat, cd: nat, saw: bool) -> bool
        decreases self.tokens@.len() - c, 0nat,
    {
        if c < 0 || c >= self.tokens@.len() {
            saw
        } else {
            let top = pd == 0 && bd == 0 && cd == 0;
            match self.tokens@[c].kind {
                TokenKind::Delimiter(Delimiter::LParen) => self.inferred_value_from(c + 1, pd + 1, bd, cd, saw),
                TokenKind::Delimiter(Delimiter::RParen) => if pd == 0 {
                    false
                } else {
                    self.inferred_value_from(c + 1, (pd - 1) as nat, bd, cd, saw)
                },
                TokenKind::Delimiter(Delimiter::LBracket) => self.inferred_value_from(c + 1, pd, bd + 1, cd, saw),
                TokenKind::Delimiter(Delimiter::RBracket) => if bd == 0 {
                    false
                } else {
                    self.inferred_value_from(c + 1, pd, (bd - 1) as nat, cd, saw)
                },
                TokenKind::Delimiter(Delimiter::LBrace) => self.inferred_value_from(c + 1, pd, bd, cd + 1, saw),
                TokenKind::Delimiter(Delimiter::RBrace) => if top {
                    saw
                } else if cd == 0 {
                    false
                } else {
                    self.inferred_value_from(c + 1, pd, bd, (cd - 1) as nat, saw)
                },
                TokenKind::Delimiter(Delimiter::Comma) => if top {
                    self.inferred_fields_from(c + 1, saw)
                } else {
                    self.inferred_value_from(c + 1, pd, bd, cd, saw)
                },
                _ => self.inferred_value_from(c + 1, pd, bd, cd, saw),
            }
        }
    }

    /// The tokens from `i` read `[mut] name` followed by `, ...` or by
    /// `} := `: the entries of a destructuring declaration.
    pub open spec fn spec_destructure_entries(&self, i: int) -> bool
        decreases self.tokens@.len() - i,
    {
        if i < 0 || i >= self.tokens@.len() {
            false
        } else {
            let j = if self.kind_at(i) == Some(TokenKind::Keyword(Keyword::Mut)) { i + 1 } else { i };
            &&& self.kind_at(j) == Some(TokenKind::Identifier)
            &&& {
                ||| self.kind_at(j + 1) == Some(TokenKind::Delimiter(Delimiter::Comma))
                    && self.spec_destructure_entries(j + 2)
                ||| self.kind_at(j + 1) == Some(TokenKind::Delimiter(Delimiter::RBrace)) && self.kind_at(j + 2)
                    == Some(TokenKind::Operator(Operator::Colon)) && self.kind_at(j + 3) == Some(
                    TokenKind::Operator(Operator::Equal),
                )
            }
        }
    }

    /// The tokens from the current one read `{ [mut] name, ... } :=`.
    pub open spec fn spec_destructure_at(&self) -> bool {
        self.spec_destructure_from(self.index as int)
    }

    /// The tokens from `i` read `{ [mut] name, ... } :=`.
    pub open spec fn spec_destructure_from(&self, i: int) -> bool {
        self.kind_at(i) == Some(TokenKind::Delimiter(Delimiter::LBrace)) && self.spec_destructure_entries(i + 1)
    }

    /// The tokens from the current one begin a top-level declaration.
    pub open spec fn spec_top_level_item_at(&self) -> bool {
        self.spec_top_level_item_from(self.index as int)
    }

    /// The tokens from `i` begin a top-level declaration: a destructuring,
    /// or, after doc comments, `[pub] extern`, or `[pub] [mut] name`
    /// followed by `:` or `=`, or by `.member` and then `:` or `=`.
    pub open spec fn spec_top_level_item_from(&self, i: int) -> bool {
        let d = self.skip_docs(i);
        let p = if self.kind_at(d) == Some(TokenKind::Keyword(Keyword::Pub)) { d + 1 } else { d };
        let j = if self.kind_at(p) == Some(TokenKind::Keyword(Keyword::Mut)) { p + 1 } else { p };
        let decl_op = |k: Option<TokenKind>|
            k == Some(TokenKind::Operator(Operator::Colon)) || k == Some(TokenKind::Operator(Operator::Equal));
        ||| self.spec_destructure_from(i)
        ||| self.kind_at(p) == Some(TokenKind::Keyword(Keyword::Extern))
        ||| self.kind_at(j) == Some(TokenKind::Identifier) && (decl_op(self.kind_at(j + 1)) || (self.kind_at(j + 1)
            == Some(TokenKind::Operator(Operator::Dot)) && self.kind_at(j + 2) == Some(TokenKind::Identifier)
            && decl_op(self.kind_at(j + 3))))
    }

    /// The lookahead predicates read only the tokens.
    proof fn lemma_lookahead_same_tokens(a: &Parser<'a>, b: &Parser<'a>, i: int)
        requires
            a.tokens == b.tokens,
        ensures
            a.skip_docs(i) == b.skip_docs(i),
            a.spec_destructure_entries(i) == b.spec_destructure_entries(i),
            a.top_level_boundary_at(i) == b.top_level_boundary_at(i),
        decreases a.tokens@.len() - i,
    {
        if 0 <= i < a.tokens@.len() {
            Self::lemma_lookahead_same_tokens(a, b, i + 1);
            if i + 2 <= a.tokens@.len() {
                Self::lemma_lookahead_same_tokens(a, b, i + 2);
            }
            if i + 3 <= a.tokens@.len() {
                Self::lemma_lookahead_same_tokens(a, b, i + 3);
            }
        }
    }

    /// Token `i` is where skipping to the next top-level item stops: the end
    /// marker, a doc comment, or the start of a top-level declaration.
    pub open spec fn top_level_boundary_at(&self, i: int) -> bool {
        ||| self.kind_at(i) == Some(TokenKind::Eof)
        ||| self.kind_at(i) == Some(TokenKind::DocComment)
        ||| self.spec_top_level_item_from(i)
    }

    /// The current token can begin a type.
    pub open spec fn at_type_start(p: &Parser<'a>) -> bool {
        p.cur() matches Some(k) && spec_starts_type(k)
    }

    /// The current token is `..` or `..=`.
    pub open spec fn at_range_op(p: &Parser<'a>) -> bool {
        p.cur() == Some(TokenKind::Operator(Operator::DotDot)) || p.cur() == Some(TokenKind::Operator(Operator::DotDotEq))
    }

    /// At `i` stands a name that no binding operator follows: neither `:`
    /// nor `=`, nor (for a declaration without `mut`) `.`; such tokens are
    /// not a declaration.
    pub open spec fn bare_name(p: &Parser<'a>, i: int, mutable: bool) -> bool {
        &&& is_name_kind(p.kind_at(i))
        &&& p.kind_at(i + 1) != Some(TokenKind::Operator(Operator::Colon))
        &&& p.kind_at(i + 1) != Some(TokenKind::Operator(Operator::Equal))
        &&& (mutable || p.kind_at(i + 1) != Some(TokenKind::Operator(Operator::Dot)))
    }

    /// After the leading doc comments of a declaration, `pub` stands.
    pub open spec fn item_is_pub(p: &Parser<'a>) -> bool {
        p.kind_at(p.skip_docs(p.index as int)) == Some(TokenKind::Keyword(Keyword::Pub))
    }

    /// The index after a declaration's doc comments and `pub`.
    pub open spec fn item_after_pub(p: &Parser<'a>) -> int {
        let d = p.skip_docs(p.index as int);
        if Self::item_is_pub(p) { d + 1 } else { d }
    }

    /// After a declaration's doc comments and `pub`, `mut` stands.
    pub open spec fn item_is_mut(p: &Parser<'a>) -> bool {
        p.kind_at(Self::item_after_pub(p)) == Some(TokenKind::Keyword(Keyword::Mut))
    }

    /// The index after a declaration's doc comments, `pub` and `mut`: where
    /// its name (or destructuring, or `extern`) stands.
    pub open spec fn item_name_index(p: &Parser<'a>) -> int {
        if Self::item_is_mut(p) { Self::item_after_pub(p) + 1 } else { Self::item_after_pub(p) }
    }

    /// A parse step from `old` to `new` that failed did so visibly: it
    /// reported a diagnostic, or it ran out of tokens.
    pub open spec fn failed_visibly(old: &Parser<'a>, new: &Parser<'a>) -> bool {
        old.diagnostics@.len() < new.diagnostics@.len() || new.index >= new.tokens@.len()
    }

    /// A parser standing at token `i` of `tokens`; what it reads ahead
    /// depends on the tokens alone.
    pub open spec fn at_index(tokens: &'a Vec<Token>, i: int) -> Parser<'a> {
        Parser {
            tokens,
            index: i as usize,
            diagnostics: vstd::pervasive::arbitrary(),
            file_path: vstd::pervasive::arbitrary(),
            disallow_ident_struct_literal: false,
            disallow_labeled_block: false,
        }
    }

    /// The current token begins a top-level declaration, or its doc comments.
    pub open spec fn item_start_at(p: &Parser<'a>) -> bool {
        p.cur() == Some(TokenKind::DocComment) || p.spec_top_level_item_at()
    }

    /// `it` is a declaration read from the tokens at `p`: its doc comments,
    /// `pub` and `mut` are those that stand there, its target is the name
    /// (or owner, or destructuring) that follows them, and a named binding
    /// has a type annotation exactly when `:` and then something other than
    /// `=` follow the name.
    pub open spec fn decl_from(p: &Parser<'a>, it: Item) -> bool {
        it matches Item::Declaration(d) && d.docs@.len() == p.skip_docs(p.index as int) - p.index
            && (d.visibility == Visibility::Public) == Self::item_is_pub(p)
            && d.modifiers.mutable == Self::item_is_mut(p)
            && (d.target is Destructure) == p.spec_destructure_from(Self::item_name_index(p))
            && (d.target matches DeclTarget::Name(n) ==> n.text@ == p.tokens@[Self::item_name_index(p)].lexeme@)
            && (d.target matches DeclTarget::Associated { owner, .. } ==> owner.text@
                == p.tokens@[Self::item_name_index(p)].lexeme@ && p.kind_at(Self::item_name_index(p) + 1)
                == Some(TokenKind::Operator(Operator::Dot)))
            && (d.target is Name && d.value is Expr ==> ((d.annotation is Some) == (p.kind_at(Self::item_name_index(p) + 1)
                == Some(TokenKind::Operator(Operator::Colon)) && p.kind_at(Self::item_name_index(p) + 2) != Some(
                TokenKind::Operator(Operator::Equal)))))
    }

    /// Having passed an end-of-file token before `i` means a diagnostic was
    /// reported (`d` of them so far).
    pub open spec fn pos_guard(tokens: Seq<Token>, i: int, d: nat) -> bool {
        d > 0 || forall|j: int| 0 <= j < i ==> (#[trigger] tokens[j]).kind != TokenKind::Eof
    }

    /// One step of the top-level loop, from token `p` with `d0` diagnostics
    /// to token `q` with `d1`: it stood on a token other than the end of
    /// file and moved on; it produced an item only at a declaration; and at
    /// a declaration that gave no item it reported a diagnostic, ran out of
    /// tokens, or found a bare name.
    pub open spec fn step_ok(tokens: &'a Vec<Token>, p: int, d0: nat, pushed: bool, q: int, d1: nat) -> bool {
        let at = Self::at_index(tokens, p);
        &&& 0 <= p < q
        &&& p < tokens@.len()
        &&& tokens@[p].kind != TokenKind::Eof
        &&& d0 <= d1
        &&& pushed ==> Self::item_start_at(&at)
        &&& (Self::item_start_at(&at) && !pushed) ==> (d0 < d1 || q >= tokens@.len() || Self::bare_name(
            &at,
            Self::item_name_index(&at),
            Self::item_is_mut(&at),
        ))
    }

    /// Where step `k` of `steps` starts; `end` after the last.
    pub open spec fn trace_pos(steps: Seq<(int, nat, bool)>, end: int, k: int) -> int {
        if k < steps.len() { steps[k].0 } else { end }
    }

    /// The diagnostics count when step `k` starts; `d_end` after the last.
    pub open spec fn trace_diags(steps: Seq<(int, nat, bool)>, d_end: nat, k: int) -> nat {
        if k < steps.len() { steps[k].1 } else { d_end }
    }

    /// The positions of the steps that produced an item, in order.
    pub open spec fn pushed_positions(steps: Seq<(int, nat, bool)>) -> Seq<int>
        decreases steps.len(),
    {
        if steps.len() == 0 {
            Seq::empty()
        } else if steps.last().2 {
            Self::pushed_positions(steps.drop_last()).push(steps.last().0)
        } else {
            Self::pushed_positions(steps.drop_last())
        }
    }

    /// The top-level loop read `tokens` from `start` in `steps` up to `end`,
    /// with `d_end` diagnostics in all, and `items` are the declarations its
    /// steps produced, each read from the tokens where its step stood.
    pub open spec fn trace_holds(tokens: &'a Vec<Token>, start: int, steps: Seq<(int, nat, bool)>, end: int, d_end: nat,
        items: Seq<Item>) -> bool {
        &&& Self::trace_pos(steps, end, 0) == start
        &&& forall|k: int| 0 <= k < steps.len() ==> #[trigger] Self::step_ok(tokens, steps[k].0, steps[k].1, steps[k].2,
            Self::trace_pos(steps, end, k + 1), Self::trace_diags(steps, d_end, k + 1))
        &&& forall|k: int| 0 <= k <= steps.len() ==> #[trigger] Self::pos_guard(tokens@, Self::trace_pos(steps, end, k),
            Self::trace_diags(steps, d_end, k))
        &&& items.len() == Self::pushed_positions(steps).len()
        &&& forall|j: int| 0 <= j < items.len() ==> #[trigger] Self::decl_from(
            &Self::at_index(tokens, Self::pushed_positions(steps)[j]), items[j])
    }

    /// A whole run of the top-level loop: it ended at the end of the tokens
    /// or at an end-of-file token.
    pub open spec fn items_trace(tokens: &'a Vec<Token>, start: int, steps: Seq<(int, nat, bool)>, end: int, d_end: nat,
        items: Seq<Item>) -> bool {
        &&& Self::trace_holds(tokens, start, steps, end, d_end, items)
        &&& end >= tokens@.len() || tokens@[end].kind == TokenKind::Eof
    }

    /// `items` are what the top-level loop reads from `start` with `d_end`
    /// diagnostics in all: some run of it produced exactly them.
    pub open spec fn read_by_top_level_loop(tokens: &'a Vec<Token>, start: int, d_end: nat, items: Seq<Item>) -> bool {
        exists|steps: Seq<(int, nat, bool)>, end: int| #[trigger] Self::items_trace(tokens, start, steps, end, d_end, items)
    }

    /// In a run of the top-level loop that reported nothing, over tokens
    /// that end with an end-of-file token, no step ran out of tokens: every
    /// step that stood at a declaration other than a bare name produced an
    /// item, and the run ended at that end-of-file token.
    pub proof fn lemma_clean_run_keeps_every_declaration(tokens: &'a Vec<Token>, start: int, steps: Seq<(int, nat, bool)>,
        end: int, items: Seq<Item>)
        requires
            Self::items_trace(tokens, start, steps, end, 0, items),
            tokens@.len() > 0,
            tokens@.last().kind == TokenKind::Eof,
        ensures
            end < tokens@.len(),
            forall|k: int| 0 <= k < steps.len() && #[trigger] Self::item_start_at(&Self::at_index(tokens, steps[k].0))
                && !Self::bare_name(&Self::at_index(tokens, steps[k].0), Self::item_name_index(&Self::at_index(tokens, steps[k].0)),
                Self::item_is_mut(&Self::at_index(tokens, steps[k].0))) ==> steps[k].2,
    {
        let n = steps.len() as int;
        let last = tokens@.len() - 1;
        assert forall|k: int| 0 <= k <= n implies #[trigger] Self::trace_diags(steps, 0, k) == 0 by {
            Self::lemma_trace_diags_bounded(tokens, start, steps, end, items, k);
        }
        assert forall|k: int| 0 <= k <= n implies #[trigger] Self::trace_pos(steps, end, k) < tokens@.len() by {
            assert(Self::pos_guard(tokens@, Self::trace_pos(steps, end, k), Self::trace_diags(steps, 0, k)));
            if Self::trace_pos(steps, end, k) >= tokens@.len() {
                assert(tokens@[last].kind == TokenKind::Eof);
            }
        }
        assert(Self::trace_pos(steps, end, n) < tokens@.len());
        assert forall|k: int| 0 <= k < steps.len() && #[trigger] Self::item_start_at(&Self::at_index(tokens, steps[k].0))
            && !Self::bare_name(&Self::at_index(tokens, steps[k].0), Self::item_name_index(&Self::at_index(tokens, steps[k].0)),
            Self::item_is_mut(&Self::at_index(tokens, steps[k].0))) implies steps[k].2 by {
            assert(Self::step_ok(tokens, steps[k].0, steps[k].1, steps[k].2, Self::trace_pos(steps, end, k + 1),
                Self::trace_diags(steps, 0, k + 1)));
            assert(Self::trace_diags(steps, 0, k) == 0);
            assert(Self::trace_diags(steps, 0, k + 1) == 0);
            assert(Self::trace_pos(steps, end, k + 1) < tokens@.len());
        }
    }

    proof fn lemma_trace_diags_bounded(tokens: &'a Vec<Token>, start: int, steps: Seq<(int, nat, bool)>, end: int,
        items: Seq<Item>, k: int)
        requires
            Self::trace_holds(tokens, start, steps, end, 0, items),
            0 <= k <= steps.len(),
        ensures
            Self::trace_diags(steps, 0, k) == 0,
        decreases steps.len() - k,
    {
        if k < steps.len() {
            Self::lemma_trace_diags_bounded(tokens, start, steps, end, items, k + 1);
            assert(Self::step_ok(tokens, steps[k].0, steps[k].1, steps[k].2, Self::trace_pos(steps, end, k + 1),
                Self::trace_diags(steps, 0, k + 1)));
        }
    }

    proof fn lemma_trace_start(tokens: &'a Vec<Token>, start: int, d: nat)
        requires
            Self::pos_guard(tokens@, start, d),
        ensures
            Self::trace_holds(tokens, start, Seq::empty(), start, d, Seq::empty()),
    {
        assert(Self::pos_guard(tokens@, Self::trace_pos(Seq::empty(), start, 0), Self::trace_diags(Seq::empty(), d, 0)));
    }

    proof fn lemma_trace_extend(tokens: &'a Vec<Token>, start: int, steps: Seq<(int, nat, bool)>, p: int, d: nat,
        pushed: bool, q: int, dq: nat, items: Seq<Item>, new_items: Seq<Item>, it: Item)
        requires
            Self::trace_holds(tokens, start, steps, p, d, items),
            Self::step_ok(tokens, p, d, pushed, q, dq),
            Self::pos_guard(tokens@, q, dq),
            pushed ==> new_items == items.push(it) && Self::decl_from(&Self::at_index(tokens, p), it),
            !pushed ==> new_items == items,
        ensures
            Self::trace_holds(tokens, start, steps.push((p, d, pushed)), q, dq, new_items),
    {
        let ns = steps.push((p, d, pushed));
        let n = steps.len() as int;
        assert forall|k: int| 0 <= k <= n implies Self::trace_pos(ns, q, k) == Self::trace_pos(steps, p, k)
            && Self::trace_diags(ns, dq, k) == Self::trace_diags(steps, d, k) by {
            if k < n {
                assert(ns[k] == steps[k]);
            }
        }
        assert forall|k: int| 0 <= k < ns.len() implies #[trigger] Self::step_ok(tokens, ns[k].0, ns[k].1, ns[k].2,
            Self::trace_pos(ns, q, k + 1), Self::trace_diags(ns, dq, k + 1)) by {
            if k < n {
                assert(ns[k] == steps[k]);
                assert(Self::step_ok(tokens, steps[k].0, steps[k].1, steps[k].2, Self::trace_pos(steps, p, k + 1),
                    Self::trace_diags(steps, d, k + 1)));
            } else {
                assert(ns[k] == (p, d, pushed));
            }
        }
        assert forall|k: int| 0 <= k <= ns.len() implies #[trigger] Self::pos_guard(tokens@, Self::trace_pos(ns, q, k),
            Self::trace_diags(ns, dq, k)) by {
            if k <= n {
                assert(Self::pos_guard(tokens@, Self::trace_pos(steps, p, k), Self::trace_diags(steps, d, k)));
            }
        }
        assert(ns.drop_last() =~= steps);
        assert(ns.last() == (p, d, pushed));
        if pushed {
            assert(Self::pushed_positions(ns) == Self::pushed_positions(steps).push(p));
            assert forall|j: int| 0 <= j < new_items.len() implies #[trigger] Self::decl_from(
                &Self::at_index(tokens, Self::pushed_positions(ns)[j]), new_items[j]) by {
                if j < items.len() {
                    assert(new_items[j] == items[j]);
                    assert(Self::pushed_positions(ns)[j] == Self::pushed_positions(steps)[j]);
                }
            }
        } else {
            assert(Self::pushed_positions(ns) == Self::pushed_positions(steps));
        }
    }

    /// A parser reads ahead as a parser standing at the same token of the
    /// same tokens does.
    proof fn lemma_at_index_reads_alike(s: &Parser<'a>)
        requires
            s.wf(),
        ensures
            Self::at_index(s.tokens, s.index as int).tokens == s.tokens,
            Self::at_index(s.tokens, s.index as int).index == s.index,
            Self::item_start_at(&Self::at_index(s.tokens, s.index as int)) == Self::item_start_at(s),
            Self::item_name_index(&Self::at_index(s.tokens, s.index as int)) == Self::item_name_index(s),
            Self::item_is_mut(&Self::at_index(s.tokens, s.index as int)) == Self::item_is_mut(s),
            Self::bare_name(&Self::at_index(s.tokens, s.index as int), Self::item_name_index(s), Self::item_is_mut(s))
                == Self::bare_name(s, Self::item_name_index(s), Self::item_is_mut(s)),
            forall|it: Item| #[trigger] Self::decl_from(&Self::at_index(s.tokens, s.index as int), it) == Self::decl_from(s, it),
    {
        let a = Self::at_index(s.tokens, s.index as int);
        Self::lemma_lookahead_same_tokens(s, &a, s.index as int);
        Self::lemma_lookahead_same_tokens(s, &a, s.index + 1);
        Self::lemma_lookahead_same_tokens(s, &a, Self::item_name_index(s) + 1);
        let d = s.skip_docs(s.index as int);
        let pp = if s.kind_at(d) == Some(TokenKind::Keyword(Keyword::Pub)) { d + 1 } else { d };
        Self::lemma_lookahead_same_tokens(s, &a, pp);
        assert(s.spec_top_level_item_from(s.index as int) == a.spec_top_level_item_from(s.index as int));
    }

    /// At `i` the tokens end, or the closing delimiter `d` stands.
    pub open spec fn closes_at(p: &Parser<'a>, i: int, d: Delimiter) -> bool {
        i >= p.tokens@.len() || p.kind_at(i) == Some(TokenKind::Delimiter(d))
    }

    /// The parser has gone past an end-of-file token only after reporting a
    /// diagnostic.
    pub open spec fn eof_guarded(&self) -> bool {
        self.diagnostics@.len() > 0 || forall|i: int| 0 <= i < self.index ==> (#[trigger] self.tokens@[i]).kind != TokenKind::Eof
    }

    /// Number of tokens not yet consumed.
    pub open spec fn rem(&self) -> nat {
        (self.tokens@.len() - self.index) as nat
    }

    /// The kind of the token at `i`, if there is one.
    pub open spec fn kind_at(&self, i: int) -> Option<TokenKind> {
        if 0 <= i < self.tokens@.len() { Some(self.tokens@[i].kind) } else { None }
    }

    /// The kind of the current token.
    pub open spec fn cur(&self) -> Option<TokenKind> {
        self.kind_at(self.index as int)
    }

    /// How the current token is named in a diagnostic.
    pub open spec fn spec_current_description(&self) -> Seq<char> {
        if self.index < self.tokens@.len() {
            spec_token_description(self.tokens@[self.index as int].kind, self.tokens@[self.index as int].lexeme@)
        } else {
            "end of file"@
        }
    }

    /// The span of the current token, or the default span at the end.
    pub open spec fn spec_current_span(&self) -> SourceSpan {
        if self.index < self.tokens@.len() { self.tokens@[self.index as int].span } else { spec_default_span() }
    }

    /// Whether the current token is the delimiter `d`.
    pub open spec fn at_delim(&self, d: Delimiter) -> bool {
        self.cur() == Some(TokenKind::Delimiter(d))
    }

    /// `next` continues `prev`: the same tokens and file, a position not
    /// before the old one, the old diagnostics kept, and every added one a
    /// parser diagnostic of this file.
    pub open spec fn continues(prev: &Parser<'a>, next: &Parser<'a>) -> bool {
        &&& prev.eof_guarded() ==> next.eof_guarded()
        &&& next.tokens == prev.tokens
        &&& next.file_path == prev.file_path
        &&& prev.index <= next.index <= next.tokens@.len()
        &&& prev.diagnostics@.len() <= next.diagnostics@.len()
        &&& forall|i: int| 0 <= i < prev.diagnostics@.len() ==> #[trigger] next.diagnostics@[i] == prev.diagnostics@[i]
        &&& forall|i: int| prev.diagnostics@.len() <= i < next.diagnostics@.len()
            ==> is_parser_diagnostic(#[trigger] next.diagnostics@[i], next.file_path@)
    }

    /// `next` continues `prev` and, unless `prev` was at the end, consumed a token.
    pub open spec fn progresses(prev: &Parser<'a>, next: &Parser<'a>) -> bool {
        &&& Self::continues(prev, next)
        &&& prev.index < prev.tokens@.len() ==> prev.index < next.index
    }

    /// A parser at the first of `tokens`, labelling diagnostics with `file_path`.
    pub fn new(file_path: String, tokens: &'a Vec<Token>) -> (r: Parser<'a>)
        ensures
            r.wf(),
            r.index == 0,
            r.tokens == tokens,
            r.file_path == file_path,
            r.diagnostics@.len() == 0,
    {
        Parser {
            tokens,
            index: 0,
            diagnostics: Vec::new(),
            file_path,
            disallow_ident_struct_literal: false,
            disallow_labeled_block: false,
        }
    }

    /// The kind of the token at `i`, if there is one.
    fn kind_at_exec(&self, i: usize) -> (r: Option<TokenKind>)
        ensures
            r == self.kind_at(i as int),
    {
        if i < self.tokens.len() { Some(self.tokens[i].kind) } else { None }
    }

    /// The kind of the token `off` places after `i`, if there is one.
    fn kind_after(&self, i: usize, off: usize) -> (r: Option<TokenKind>)
        ensures
            r == self.kind_at(i + off),
    {
        let n = self.tokens.len();
        if i < n && off < n - i { Some(self.tokens[i + off].kind) } else { None }
    }

    /// The kind of the current token.
    fn current_kind(&self) -> (r: Option<TokenKind>)
        ensures
            r == self.cur(),
    {
        self.kind_at_exec(self.index)
    }

    /// The span of the current token, or line 1 column 1 past the end.
    fn current_span(&self) -> (r: SourceSpan)
        ensures
            r == (if self.index < self.tokens@.len() { self.tokens@[self.index as int].span } else { spec_default_span() }),
    {
        if self.index < self.tokens.len() {
            self.tokens[self.index].span
        } else {
            SourceSpan { start_byte: 0, end_byte: 0, start_line: 1, start_col: 1, end_line: 1, end_col: 1 }
        }
    }

    /// How the current token is named in a diagnostic.
    fn current_token_description(&self) -> (r: String)
        ensures
            self.index < self.tokens@.len() ==> r@ == spec_token_description(
                self.tokens@[self.index as int].kind,
                self.tokens@[self.index as int].lexeme@,
            ),
            self.index >= self.tokens@.len() ==> r@ == "end of file"@,
    {
        if self.index < self.tokens.len() {
            token_description(&self.tokens[self.index])
        } else {
            string_from_str("end of file")
        }
    }

    /// The span of the previous token, or the current span at the start.
    fn prev_span(&self) -> (r: SourceSpan)
        requires
            self.wf(),
        ensures
            self.index > 0 ==> r == self.tokens@[self.index - 1].span,
    {
        if self.index == 0 {
            return self.current_span();
        }
        self.tokens[self.index - 1].span
    }

    /// The kind of the previous token.
    fn prev_kind(&self) -> (r: Option<TokenKind>)
        requires
            self.wf(),
        ensures
            r == (if self.index == 0 { None } else { Some(self.tokens@[self.index - 1].kind) }),
    {
        if self.index == 0 {
            return None;
        }
        Some(self.tokens[self.index - 1].kind)
    }

    /// Moves past the current token, if there is one.
    fn advance(&mut self)
        requires
            old(self).wf(),
            old(self).cur() != Some(TokenKind::Eof) || old(self).diagnostics@.len() > 0,
        ensures
            Self::progresses(old(self), final(self)),
            final(self).index == if old(self).index < old(self).tokens@.len() { old(self).index + 1 } else { old(self).index as int },
            final(self).diagnostics == old(self).diagnostics,
            final(self).disallow_ident_struct_literal == old(self).disallow_ident_struct_literal,
            final(self).disallow_labeled_block == old(self).disallow_labeled_block,
    {
        if self.index < self.tokens.len() {
            self.index = self.index + 1;
        }
    }

    /// Whether all tokens are consumed.
    fn is_eof(&self) -> (r: bool)
        ensures
            r == (self.index >= self.tokens@.len()),
    {
        self.index >= self.tokens.len()
    }

    /// Whether the current token has kind `kind`.
    fn peek_kind(&self, kind: TokenKind) -> (r: bool)
        ensures
            r == (self.cur() == Some(kind)),
    {
        match self.current_kind() {
            Some(k) => k == kind,
            None => false,
        }
    }

    /// Whether the token after the current one has kind `kind`.
    fn peek_next_kind(&self, kind: TokenKind) -> (r: bool)
        requires
            self.wf(),
        ensures
            r == (self.kind_at(self.index + 1) == Some(kind)),
    {
        if self.index < self.tokens.len() {
            match self.kind_at_exec(self.index + 1) {
                Some(k) => k == kind,
                None => false,
            }
        } else {
            false
        }
    }

    /// Whether the current token is the keyword `keyword`.
    fn peek_keyword(&self, keyword: Keyword) -> (r: bool)
        ensures
            r == (self.cur() == Some(TokenKind::Keyword(keyword))),
    {
        self.peek_kind(TokenKind::Keyword(keyword))
    }

    /// Whether the current token is the operator `op`.
    fn peek_operator(&self, op: Operator) -> (r: bool)
        ensures
            r == (self.cur() == Some(TokenKind::Operator(op))),
    {
        self.peek_kind(TokenKind::Operator(op))
    }

    /// Whether the current token is the delimiter `d`.
    fn peek_delimiter(&self, d: Delimiter) -> (r: bool)
        ensures
            r == self.at_delim(d),
    {
        self.peek_kind(TokenKind::Delimiter(d))
    }

    /// Whether the current token is an identifier spelled `text`.
    fn peek_identifier_text(&self, text: &str) -> (r: bool)
        ensures
            r == (self.cur() == Some(TokenKind::Identifier) && self.tokens@[self.index as int].lexeme@ == text@),
    {
        if self.index < self.tokens.len() && self.tokens[self.index].kind == TokenKind::Identifier {
            string_eq_str(&self.tokens[self.index].lexeme, text)
        } else {
            false
        }
    }

    /// Consumes the current token when it has kind `kind`.
    fn match_kind(&mut self, kind: TokenKind) -> (r: bool)
        requires
            old(self).wf(),
            kind != TokenKind::Eof,
        ensures
            r == (old(self).cur() == Some(kind)),
            Self::continues(old(self), final(self)),
            final(self).index == (if r { old(self).index + 1 } else { old(self).index as int }),
            final(self).diagnostics == old(self).diagnostics,
            final(self).disallow_ident_struct_literal == old(self).disallow_ident_struct_literal,
            final(self).disallow_labeled_block == old(self).disallow_labeled_block,
    {
        if self.peek_kind(kind) {
            self.advance();
            return true;
        }
        false
    }

    /// Consumes the keyword `keyword` when it is current.
    fn match_keyword(&mut self, keyword: Keyword) -> (r: bool)
        requires
            old(self).wf(),
        ensures
            r == (old(self).cur() == Some(TokenKind::Keyword(keyword))),
            Self::continues(old(self), final(self)),
            final(self).index == (if r { old(self).index + 1 } else { old(self).index as int }),
            final(self).diagnostics == old(self).diagnostics,
            final(self).disallow_ident_struct_literal == old(self).disallow_ident_struct_literal,
            final(self).disallow_labeled_block == old(self).disallow_labeled_block,
    {
        self.match_kind(TokenKind::Keyword(keyword))
    }

    /// Consumes the operator `op` when it is current.
    fn match_operator(&mut self, op: Operator) -> (r: bool)
        requires
            old(self).wf(),
        ensures
            r == (old(self).cur() == Some(TokenKind::Operator(op))),
            Self::continues(old(self), final(self)),
            final(self).index == (if r { old(self).index + 1 } else { old(self).index as int }),
            final(self).diagnostics == old(self).diagnostics,
            final(self).disallow_ident_struct_literal == old(self).disallow_ident_struct_literal,
            final(self).disallow_labeled_block == old(self).disallow_labeled_block,
    {
        self.match_kind(TokenKind::Operator(op))
    }

    /// Consumes the delimiter `d` when it is current.
    fn match_delimiter(&mut self, d: Delimiter) -> (r: bool)
        requires
            old(self).wf(),
        ensures
            r == old(self).at_delim(d),
            Self::continues(old(self), final(self)),
            final(self).index == (if r { old(self).index + 1 } else { old(self).index as int }),
            final(self).diagnostics == old(self).diagnostics,
            final(self).disallow_ident_struct_literal == old(self).disallow_ident_struct_literal,
            final(self).disallow_labeled_block == old(self).disallow_labeled_block,
    {
        self.match_kind(TokenKind::Delimiter(d))
    }

    /// Records a parser error labelled with this file at `span`.
    fn report_parser_error(&mut self, code: DiagnosticCode, message: String, span: SourceSpan, label: String)
        requires
            old(self).wf(),
            code == DiagnosticCode::E3001 || code == DiagnosticCode::E3002,
        ensures
            Self::continues(old(self), final(self)),
            final(self).index == old(self).index,
            final(self).diagnostics@.len() == old(self).diagnostics@.len() + 1,
            final(self).diagnostics@.last().code == code,
            final(self).diagnostics@.last().message@ == message@,
            final(self).diagnostics@.last().primary_label matches Some(l) && l.span == Some(span)
                && l.message@ == label@,
            final(self).disallow_ident_struct_literal == old(self).disallow_ident_struct_literal,
            final(self).disallow_labeled_block == old(self).disallow_labeled_block,
    {
        let d = Diagnostic::error(DiagnosticPhase::Parser, code, message).with_primary_file_label(
            self.file_path.clone(),
            Some(span),
            label,
        );
        self.diagnostics.push(d);
    }

    /// Reports `<message>; found <token>` when the current token is not what
    /// was expected.
    fn report_expected(&mut self, message: &str, what: &str)
        requires
            old(self).wf(),
        ensures
            Self::continues(old(self), final(self)),
            final(self).index == old(self).index,
            final(self).diagnostics@.len() == old(self).diagnostics@.len() + 1,
            final(self).diagnostics@.last().code == DiagnosticCode::E3001,
            final(self).diagnostics@.last().message@ == message@ + "; found "@
                + old(self).spec_current_description(),
            final(self).diagnostics@.last().primary_label matches Some(l) && l.span == Some(
                old(self).spec_current_span(),
            ) && l.message@ == "expected "@ + what@ + " here, found "@ + old(self).spec_current_description(),
            final(self).disallow_ident_struct_literal == old(self).disallow_ident_struct_literal,
            final(self).disallow_labeled_block == old(self).disallow_labeled_block,
    {
        let found = self.current_token_description();
        let mut full = string_from_str(message);
        push_str(&mut full, "; found ");
        push_string(&mut full, &found);
        let mut label = string_from_str("expected ");
        push_str(&mut label, what);
        push_str(&mut label, " here, found ");
        push_string(&mut label, &found);
        let span = self.current_span();
        self.report_parser_error(DiagnosticCode::E3001, full, span, label);
    }

    /// Consumes the operator `op`, or reports that it is missing.
    fn expect_operator(&mut self, op: Operator, message: &str)
        requires
            old(self).wf(),
        ensures
            Self::continues(old(self), final(self)),
            final(self).index == (if old(self).cur() == Some(TokenKind::Operator(op)) { old(self).index + 1 } else { old(self).index as int }),
            final(self).disallow_ident_struct_literal == old(self).disallow_ident_struct_literal,
            final(self).disallow_labeled_block == old(self).disallow_labeled_block,
    {
        if !self.match_operator(op) {
            self.report_expected(message, "operator");
        }
    }

    /// Consumes the delimiter `d`, or reports that it is missing.
    fn expect_delimiter(&mut self, d: Delimiter, message: &str)
        requires
            old(self).wf(),
        ensures
            Self::continues(old(self), final(self)),
            final(self).index == (if old(self).at_delim(d) { old(self).index + 1 } else { old(self).index as int }),
            old(self).at_delim(d) ==> final(self).diagnostics == old(self).diagnostics,
            !old(self).at_delim(d) ==> final(self).diagnostics@.len() > old(self).diagnostics@.len(),
            final(self).disallow_ident_struct_literal == old(self).disallow_ident_struct_literal,
            final(self).disallow_labeled_block == old(self).disallow_labeled_block,
    {
        if !self.match_delimiter(d) {
            self.report_expected(message, "delimiter");
        }
    }

    /// Whether the current token can start an expression.
    fn starts_expr(&self) -> (r: bool)
        ensures
            r == (self.cur() matches Some(k) && spec_starts_expr(k)),
    {
        match self.current_kind() {
            Some(k) => starts_expr_kind(k),
            None => false,
        }
    }

    /// Whether the current token can start a type.
    fn starts_type_expr(&self) -> (r: bool)
        ensures
            r == (self.cur() matches Some(k) && spec_starts_type(k)),
    {
        match self.current_kind() {
            Some(k) => match k {
                TokenKind::Identifier | TokenKind::Keyword(Keyword::Type) | TokenKind::Keyword(Keyword::Packed)
                | TokenKind::Keyword(Keyword::Struct) | TokenKind::Keyword(Keyword::Enum)
                | TokenKind::Keyword(Keyword::Inline) | TokenKind::Keyword(Keyword::Comp)
                | TokenKind::Operator(Operator::Question) | TokenKind::Operator(Operator::Star)
                | TokenKind::Delimiter(Delimiter::LBracket) | TokenKind::Delimiter(Delimiter::LParen) => true,
                _ => false,
            },
            None => false,
        }
    }

    /// Whether the current token starts on line `line`.
    fn current_starts_on_line(&self, line: usize) -> (r: bool)
        ensures
            r == (self.index < self.tokens@.len() && self.tokens@[self.index as int].span.start_line == line),
    {
        self.index < self.tokens.len() && self.tokens[self.index].span.start_line == line
    }

    /// Whether the current token begins right where `expr_span` ends.
    fn current_touches_expr_end(&self, expr_span: SourceSpan) -> (r: bool)
        ensures
            r == (self.index < self.tokens@.len() && self.tokens@[self.index as int].span.start_byte == expr_span.end_byte),
    {
        self.index < self.tokens.len() && self.tokens[self.index].span.start_byte == expr_span.end_byte
    }

    /// The binary operator of the current token, with its precedence and
    /// whether it associates to the right.
    fn current_binary_op(&self) -> (r: Option<(BinaryOp, u8, bool)>)
        ensures
            r == (match self.cur() {
                Some(k) => spec_binary_op(k),
                None => None,
            }),
    {
        match self.current_kind() {
            Some(k) => binary_op_of(k),
            None => None,
        }
    }

    /// The assignment operator of the current token.
    fn current_assign_op(&self) -> (r: Option<AssignOp>)
        ensures
            r == (match self.cur() {
                Some(k) => spec_assign_op(k),
                None => None,
            }),
    {
        match self.current_kind() {
            Some(TokenKind::Operator(op)) => match op {
                Operator::Equal => Some(AssignOp::Assign),
                Operator::PlusEqual => Some(AssignOp::AddAssign),
                Operator::MinusEqual => Some(AssignOp::SubAssign),
                Operator::StarEqual => Some(AssignOp::MulAssign),
                Operator::SlashEqual => Some(AssignOp::DivAssign),
                Operator::PercentEqual => Some(AssignOp::ModAssign),
                Operator::AmpersandEqual => Some(AssignOp::BitAndAssign),
                Operator::PipeEqual => Some(AssignOp::BitOrAssign),
                Operator::CaretEqual => Some(AssignOp::BitXorAssign),
                Operator::LeftShiftEqual => Some(AssignOp::ShlAssign),
                Operator::RightShiftEqual => Some(AssignOp::ShrAssign),
                _ => None,
            },
            _ => None,
        }
    }

    /// Whether the current token can begin a match arm's pattern.
    fn looks_like_match_pattern_start(&self) -> (r: bool)
        ensures
            r == (self.cur() matches Some(k) && spec_pattern_start(k)),
    {
        match self.current_kind() {
            Some(k) => match k {
                TokenKind::Identifier | TokenKind::Keyword(_) | TokenKind::IntLiteral | TokenKind::FloatLiteral
                | TokenKind::StringLiteral | TokenKind::CharLiteral | TokenKind::BoolLiteral(_)
                | TokenKind::NullLiteral | TokenKind::Operator(Operator::Dot) => true,
                _ => false,
            },
            None => false,
        }
    }

    /// Whether the current token can begin a statement that assigns.
    fn starts_assignment_stmt(&self) -> (r: bool)
        ensures
            r == (self.cur() == Some(TokenKind::Identifier) || self.cur() == Some(TokenKind::BuiltinIdentifier)),
    {
        self.peek_kind(TokenKind::Identifier) || self.peek_kind(TokenKind::BuiltinIdentifier)
    }

    /// Whether a `{` opens a tuple literal: a comma occurs at the top level
    /// of the braces before they close.
    fn looks_like_tuple_literal(&self) -> (r: bool)
        requires
            self.wf(),
        ensures
            r ==> self.at_delim(Delimiter::LBrace),
    {
        if !self.peek_delimiter(Delimiter::LBrace) {
            return false;
        }
        let mut brace_depth: usize = 0;
        let mut paren_depth: usize = 0;
        let mut bracket_depth: usize = 0;
        let mut idx: usize = self.index;
        while idx < self.tokens.len()
            invariant
                self.index <= idx <= self.tokens@.len(),
                self.at_delim(Delimiter::LBrace),
                brace_depth <= idx - self.index,
                paren_depth <= idx - self.index,
                bracket_depth <= idx - self.index,
            decreases self.tokens.len() - idx,
        {
            match self.tokens[idx].kind {
                TokenKind::Delimiter(Delimiter::LBrace) => {
                    brace_depth = brace_depth + 1;
                },
                TokenKind::Delimiter(Delimiter::RBrace) => {
                    if brace_depth == 0 {
                        return false;
                    }
                    brace_depth = brace_depth - 1;
                    if brace_depth == 0 {
                        return false;
                    }
                },
                TokenKind::Delimiter(Delimiter::LParen) => {
                    paren_depth = paren_depth + 1;
                },
                TokenKind::Delimiter(Delimiter::RParen) => {
                    paren_depth = if paren_depth > 0 { paren_depth - 1 } else { 0 };
                },
                TokenKind::Delimiter(Delimiter::LBracket) => {
                    bracket_depth = bracket_depth + 1;
                },
                TokenKind::Delimiter(Delimiter::RBracket) => {
                    bracket_depth = if bracket_depth > 0 { bracket_depth - 1 } else { 0 };
                },
                TokenKind::Delimiter(Delimiter::Comma) => {
                    if brace_depth == 1 && paren_depth == 0 && bracket_depth == 0 {
                        return true;
                    }
                },
                _ => {},
            }
            idx = idx + 1;
        }
        false
    }

    /// Whether the tokens between the parentheses at `open_idx` and
    /// `close_idx` read as function parameters: names, each optionally
    /// followed by `: type` or `= default`, separated by commas.
    fn paren_contents_look_like_fn_params(&self, open_idx: usize, close_idx: usize) -> (r: bool)
        requires
            open_idx < close_idx < self.tokens@.len(),
        ensures
            r == self.fn_params_from(open_idx + 1, close_idx as int),
    {
        let n = self.tokens.len();
        if close_idx <= open_idx + 1 {
            return true;
        }
        let ghost goal = self.fn_params_from(open_idx + 1, close_idx as int);
        let mut idx: usize = open_idx + 1;
        while idx < close_idx
            invariant
                n == self.tokens@.len(),
                open_idx < idx <= close_idx + 1,
                close_idx < self.tokens@.len(),
                goal == self.fn_params_from(open_idx + 1, close_idx as int),
                goal == self.fn_params_from(idx as int, close_idx as int),
            decreases close_idx + 1 - idx,
        {
            match self.tokens[idx].kind {
                TokenKind::Identifier | TokenKind::Keyword(_) => {},
                _ => {
                    return false;
                },
            }
            idx = idx + 1;
            match self.tokens[idx].kind {
                TokenKind::Delimiter(Delimiter::RParen) => {
                    return idx == close_idx;
                },
                TokenKind::Delimiter(Delimiter::Comma) => {
                    idx = idx + 1;
                    continue;
                },
                TokenKind::Operator(Operator::Colon) | TokenKind::Operator(Operator::Equal) => {
                    idx = idx + 1;
                    if idx >= close_idx {
                        return false;
                    }
                    let mut paren_depth: usize = 0;
                    let mut bracket_depth: usize = 0;
                    let mut brace_depth: usize = 0;
                    let mut consumed_any = false;
                    let ghost entry = idx;
                    while idx < close_idx
                        invariant_except_break
                            goal == self.fn_param_tail_from(
                                entry as int,
                                idx as int,
                                paren_depth as nat,
                                bracket_depth as nat,
                                brace_depth as nat,
                                close_idx as int,
                            ),
                        invariant
                            n == self.tokens@.len(),
                            goal == self.fn_params_from(open_idx + 1, close_idx as int),
                            open_idx < entry <= idx <= close_idx,
                            consumed_any ==> entry < idx,
                            !consumed_any ==> entry == idx,
                            close_idx < self.tokens@.len(),
                            paren_depth <= idx,
                            bracket_depth <= idx,
                            brace_depth <= idx,
                        ensures
                            goal == self.fn_params_resume(entry as int, idx as int, close_idx as int),
                        decreases close_idx - idx,
                    {
                        let kind = self.tokens[idx].kind;
                        match kind {
                            TokenKind::Delimiter(Delimiter::LParen) => {
                                paren_depth = paren_depth + 1;
                            },
                            TokenKind::Delimiter(Delimiter::RParen) => {
                                if paren_depth == 0 {
                                    break;
                                }
                                paren_depth = paren_depth - 1;
                            },
                            TokenKind::Delimiter(Delimiter::LBracket) => {
                                bracket_depth = bracket_depth + 1;
                            },
                            TokenKind::Delimiter(Delimiter::RBracket) => {
                                bracket_depth = if bracket_depth > 0 { bracket_depth - 1 } else { 0 };
                            },
                            TokenKind::Delimiter(Delimiter::LBrace) => {
                                brace_depth = brace_depth + 1;
                            },
                            TokenKind::Delimiter(Delimiter::RBrace) => {
                                brace_depth = if brace_depth > 0 { brace_depth - 1 } else { 0 };
                            },
                            TokenKind::Delimiter(Delimiter::Comma) => {
                                if paren_depth == 0 && bracket_depth == 0 && brace_depth == 0 {
                                    break;
                                }
                            },
                            _ => {},
                        }
                        consumed_any = true;
                        idx = idx + 1;
                    }
                    if !consumed_any {
                        return false;
                    }
                    if idx < close_idx && self.tokens[idx].kind == TokenKind::Delimiter(Delimiter::Comma) {
                        idx = idx + 1;
                    }
                },
                _ => {
                    return false;
                },
            }
        }
        idx == close_idx
    }

    /// Whether a `(` opens a function literal: its contents read as
    /// parameters and what follows the matching `)` can begin a function's
    /// return type or body on the same line (a body or `=>` may follow on a
    /// later line).
    fn looks_like_fn_literal(&self) -> (r: bool)
        requires
            self.wf(),
        ensures
            r ==> self.at_delim(Delimiter::LParen),
    {
        let n = self.tokens.len();
        if !self.peek_delimiter(Delimiter::LParen) {
            return false;
        }
        let mut depth: usize = 0;
        let mut idx: usize = self.index;
        while idx < self.tokens.len()
            invariant
                n == self.tokens@.len(),
                self.index <= idx <= self.tokens@.len(),
                self.index < self.tokens@.len(),
                self.tokens@[self.index as int].kind == TokenKind::Delimiter(Delimiter::LParen),
                depth <= idx - self.index,
                idx > self.index ==> depth >= 1,
            decreases self.tokens.len() - idx,
        {
            match self.tokens[idx].kind {
                TokenKind::Delimiter(Delimiter::LParen) => {
                    depth = depth + 1;
                },
                TokenKind::Delimiter(Delimiter::RParen) => {
                    if depth == 0 {
                        return false;
                    }
                    depth = depth - 1;
                    if depth == 0 {
                        if !self.paren_contents_look_like_fn_params(self.index, idx) {
                            return false;
                        }
                        if idx + 1 < self.tokens.len() {
                            let next = &self.tokens[idx + 1];
                            let close_line = self.tokens[idx].span.end_line;
                            let opens_body = match next.kind {
                                TokenKind::Delimiter(Delimiter::LBrace) | TokenKind::Operator(Operator::FatArrow) => true,
                                _ => false,
                            };
                            if next.span.start_line != close_line && !opens_body {
                                return false;
                            }
                            return match next.kind {
                                TokenKind::Delimiter(Delimiter::LBrace) | TokenKind::Delimiter(Delimiter::LParen)
                                | TokenKind::Operator(Operator::FatArrow) | TokenKind::Operator(Operator::Bang)
                                | TokenKind::Identifier | TokenKind::Keyword(Keyword::Type)
                                | TokenKind::Keyword(Keyword::Packed) | TokenKind::Keyword(Keyword::Struct)
                                | TokenKind::Keyword(Keyword::Enum) | TokenKind::Keyword(Keyword::Inline)
                                | TokenKind::Keyword(Keyword::Comp) | TokenKind::Operator(Operator::Question)
                                | TokenKind::Operator(Operator::Star) | TokenKind::Delimiter(Delimiter::LBracket) => true,
                                _ => false,
                            };
                        }
                        return false;
                    }
                },
                _ => {},
            }
            idx = idx + 1;
        }
        false
    }

    /// Whether an anonymous `.{ ... }` literal is struct-shaped: every entry
    /// is a name, possibly with `: value`, and at least one has the value.
    fn looks_like_inferred_struct_field_list(&self) -> (r: bool)
        requires
            self.wf(),
        ensures
            r == self.inferred_fields_from(self.index as int, false),
    {
        let n = self.tokens.len();
        let mut cursor: usize = self.index;
        let mut saw_explicit_field = false;
        let ghost goal = self.inferred_fields_from(self.index as int, false);
        while cursor < self.tokens.len()
            invariant
                n == self.tokens@.len(),
                self.index <= cursor <= self.tokens@.len(),
                goal == self.inferred_fields_from(cursor as int, saw_explicit_field),
                goal == self.inferred_fields_from(self.index as int, false),
            ensures
                goal == self.inferred_fields_from(cursor as int, saw_explicit_field),
                goal == self.inferred_fields_from(self.index as int, false),
                cursor >= self.tokens@.len() || self.tokens@[cursor as int].kind == TokenKind::Delimiter(Delimiter::RBrace),
            decreases self.tokens.len() - cursor,
        {
            if self.tokens[cursor].kind == TokenKind::Delimiter(Delimiter::RBrace) {
                break;
            }
            if self.tokens[cursor].kind != TokenKind::Identifier {
                return false;
            }
            let explicit = cursor + 1 < self.tokens.len()
                && self.tokens[cursor + 1].kind == TokenKind::Operator(Operator::Colon);
            if explicit {
                saw_explicit_field = true;
                cursor = cursor + 2;
            } else {
                cursor = cursor + 1;
            }
            let mut paren_depth: usize = 0;
            let mut bracket_depth: usize = 0;
            let mut brace_depth: usize = 0;
            let ghost entry = cursor;
            while cursor < self.tokens.len()
                invariant_except_break
                    goal == self.inferred_value_from(
                        cursor as int,
                        paren_depth as nat,
                        bracket_depth as nat,
                        brace_depth as nat,
                        saw_explicit_field,
                    ),
                invariant
                    n == self.tokens@.len(),
                    goal == self.inferred_fields_from(self.index as int, false),
                    self.index < entry <= cursor <= self.tokens@.len(),
                    paren_depth <= cursor,
                    bracket_depth <= cursor,
                    brace_depth <= cursor,
                ensures
                    goal == self.inferred_fields_from(cursor as int, saw_explicit_field),
                decreases self.tokens.len() - cursor,
            {
                match self.tokens[cursor].kind {
                    TokenKind::Delimiter(Delimiter::LParen) => {
                        paren_depth = paren_depth + 1;
                    },
                    TokenKind::Delimiter(Delimiter::RParen) => {
                        if paren_depth == 0 {
                            return false;
                        }
                        paren_depth = paren_depth - 1;
                    },
                    TokenKind::Delimiter(Delimiter::LBracket) => {
                        bracket_depth = bracket_depth + 1;
                    },
                    TokenKind::Delimiter(Delimiter::RBracket) => {
                        if bracket_depth == 0 {
                            return false;
                        }
                        bracket_depth = bracket_depth - 1;
                    },
                    TokenKind::Delimiter(Delimiter::LBrace) => {
                        brace_depth = brace_depth + 1;
                    },
                    TokenKind::Delimiter(Delimiter::RBrace) => {
                        if paren_depth == 0 && bracket_depth == 0 && brace_depth == 0 {
                            return saw_explicit_field;
                        }
                        if brace_depth == 0 {
                            return false;
                        }
                        brace_depth = brace_depth - 1;
                    },
                    TokenKind::Delimiter(Delimiter::Comma) => {
                        if paren_depth == 0 && bracket_depth == 0 && brace_depth == 0 {
                            cursor = cursor + 1;
                            break;
                        }
                    },
                    _ => {},
                }
                cursor = cursor + 1;
            }
        }
        saw_explicit_field
    }

    /// Whether the tokens ahead read `{ [mut] name, ... } :=`: a destructuring
    /// declaration rather than a block.
    fn looks_like_destructure_binding(&self) -> (r: bool)
        requires
            self.wf(),
        ensures
            r == self.spec_destructure_at(),
    {
        let n = self.tokens.len();
        let mut idx: usize = self.index;
        if self.kind_at_exec(idx) != Some(TokenKind::Delimiter(Delimiter::LBrace)) {
            return false;
        }
        idx = idx + 1;
        let mut has_item = false;
        loop
            invariant_except_break
                !has_item,
                self.spec_destructure_entries(self.index + 1) == self.spec_destructure_entries(idx as int),
            invariant
                n == self.tokens@.len(),
                self.index < idx <= self.tokens@.len(),
                self.at_delim(Delimiter::LBrace),
            ensures
                self.index < idx <= self.tokens@.len(),
                has_item ==> (self.spec_destructure_entries(self.index + 1) == (self.kind_at(idx as int) == Some(
                    TokenKind::Operator(Operator::Colon),
                ) && self.kind_at(idx + 1) == Some(TokenKind::Operator(Operator::Equal)))),
                !has_item ==> !self.spec_destructure_entries(self.index + 1),
            decreases self.tokens@.len() - idx,
        {
            if self.kind_at_exec(idx) == Some(TokenKind::Keyword(Keyword::Mut)) {
                idx = idx + 1;
            }
            if self.kind_at_exec(idx) != Some(TokenKind::Identifier) {
                break;
            }
            idx = idx + 1;
            let k = self.kind_at_exec(idx);
            if k == Some(TokenKind::Delimiter(Delimiter::Comma)) {
                idx = idx + 1;
                continue;
            }
            if k == Some(TokenKind::Delimiter(Delimiter::RBrace)) {
                idx = idx + 1;
                has_item = true;
            }
            break;
        }
        if !has_item {
            return false;
        }
        self.kind_at_exec(idx) == Some(TokenKind::Operator(Operator::Colon))
            && idx < self.tokens.len()
            && self.kind_after(idx, 1) == Some(TokenKind::Operator(Operator::Equal))
    }

    /// Whether the tokens ahead begin a top-level declaration: a
    /// destructuring, or `[docs] [pub] extern`, or `[docs] [pub] [mut] name`
    /// followed by `:` or `=`, or by `.member` and then `:` or `=`.
    fn looks_like_top_level_item(&self) -> (r: bool)
        requires
            self.wf(),
        ensures
            r == self.spec_top_level_item_at(),
    {
        let n = self.tokens.len();
        if self.looks_like_destructure_binding() {
            return true;
        }
        let mut idx: usize = self.index;
        while self.kind_at_exec(idx) == Some(TokenKind::DocComment)
            invariant
                n == self.tokens@.len(),
                self.index <= idx <= self.tokens@.len(),
                self.skip_docs(idx as int) == self.skip_docs(self.index as int),
            decreases self.tokens@.len() - idx,
        {
            idx = idx + 1;
        }
        if self.kind_at_exec(idx) == Some(TokenKind::Keyword(Keyword::Pub)) {
            idx = idx + 1;
        }
        if self.kind_at_exec(idx) == Some(TokenKind::Keyword(Keyword::Extern)) {
            return true;
        }
        if self.kind_at_exec(idx) == Some(TokenKind::Keyword(Keyword::Mut)) {
            idx = idx + 1;
        }
        if self.kind_at_exec(idx) != Some(TokenKind::Identifier) {
            return false;
        }
        let k1 = self.kind_after(idx, 1);
        if k1 == Some(TokenKind::Operator(Operator::Dot)) && self.kind_after(idx, 2) == Some(TokenKind::Identifier) {
            let k3 = self.kind_after(idx, 3);
            if k3 == Some(TokenKind::Operator(Operator::Colon)) || k3 == Some(TokenKind::Operator(Operator::Equal)) {
                return true;
            }
        }
        k1 == Some(TokenKind::Operator(Operator::Colon)) || k1 == Some(TokenKind::Operator(Operator::Equal))
    }

    /// Whether the tokens ahead begin a local declaration: `name:` not
    /// followed by `{` or `for` (a labelled block or loop), `mut name =`,
    /// `[mut] name :`, or `name.member:`.
    fn looks_like_local_binding(&self) -> (r: bool)
        requires
            self.wf(),
        ensures
            r == self.spec_local_binding_at(self.index as int),
    {
        let n = self.tokens.len();
        let mut idx: usize = self.index;
        let saw_mut = self.kind_at_exec(idx) == Some(TokenKind::Keyword(Keyword::Mut));
        if saw_mut {
            idx = idx + 1;
        }
        if self.kind_at_exec(idx) != Some(TokenKind::Identifier) {
            return false;
        }
        if !saw_mut && self.kind_after(idx, 1) == Some(TokenKind::Operator(Operator::Dot))
            && self.kind_after(idx, 2) == Some(TokenKind::Identifier)
            && self.kind_after(idx, 3) == Some(TokenKind::Operator(Operator::Colon))
        {
            return true;
        }
        let k1 = self.kind_after(idx, 1);
        if k1 == Some(TokenKind::Operator(Operator::Colon)) {
            let k2 = self.kind_after(idx, 2);
            return !(k2 == Some(TokenKind::Delimiter(Delimiter::LBrace)) || k2 == Some(TokenKind::Keyword(Keyword::For)));
        }
        if k1 == Some(TokenKind::Operator(Operator::Equal)) {
            return saw_mut;
        }
        false
    }

    /// Reads an identifier (a keyword counts as one); reports and skips
    /// any other token.
    fn parse_ident(&mut self) -> (r: Option<Ident>)
        requires
            old(self).wf(),
        ensures
            r is None ==> Self::failed_visibly(old(self), final(self)),
            Self::progresses(old(self), final(self)),
            r is Some ==> old(self).index < final(self).index,
            (r is Some) == (old(self).cur() == Some(TokenKind::Identifier) || old(self).cur() matches Some(TokenKind::Keyword(_))),
            r matches Some(id) ==> id.text@ == old(self).tokens@[old(self).index as int].lexeme@,
            r is Some ==> final(self).index == old(self).index + 1 && final(self).diagnostics == old(self).diagnostics,
    {
        if self.index >= self.tokens.len() {
            return None;
        }
        let kind = self.tokens[self.index].kind;
        let span = self.tokens[self.index].span;
        match kind {
            TokenKind::Identifier | TokenKind::Keyword(_) => {
                let text = self.tokens[self.index].lexeme.clone();
                self.advance();
                Some(Ident { text, span })
            },
            _ => {
                let found = token_description(&self.tokens[self.index]);
                let mut message = string_from_str("expected identifier, found ");
                push_string(&mut message, &found);
                let mut label = string_from_str("expected an identifier here, found ");
                push_string(&mut label, &found);
                self.report_parser_error(DiagnosticCode::E3001, message, span, label);
                self.advance();
                None
            },
        }
    }

    /// Reads a string literal's value; reports and skips any other token.
    fn parse_string_literal(&mut self) -> (r: Option<String>)
        requires
            old(self).wf(),
        ensures
            Self::progresses(old(self), final(self)),
            r is Some ==> old(self).index < final(self).index,
            r is None ==> Self::failed_visibly(old(self), final(self)),
    {
        if self.index >= self.tokens.len() {
            return None;
        }
        let kind = self.tokens[self.index].kind;
        let span = self.tokens[self.index].span;
        if kind != TokenKind::StringLiteral {
            let found = token_description(&self.tokens[self.index]);
            let mut message = string_from_str("expected string literal, found ");
            push_string(&mut message, &found);
            let mut label = string_from_str("imports require a quoted string path; found ");
            push_string(&mut label, &found);
            self.report_parser_error(DiagnosticCode::E3001, message, span, label);
            self.advance();
            return None;
        }
        let value = string_from_lexeme(self.tokens[self.index].lexeme.as_str());
        self.advance();
        Some(value)
    }

    /// Reads the doc comments at the current position.
    fn parse_doc_comments(&mut self) -> (r: Vec<DocComment>)
        requires
            old(self).wf(),
        ensures
            Self::continues(old(self), final(self)),
            final(self).diagnostics == old(self).diagnostics,
            old(self).cur() == Some(TokenKind::DocComment) ==> old(self).index < final(self).index,
            final(self).index == old(self).skip_docs(old(self).index as int),
            r@.len() == final(self).index - old(self).index,
            forall|k: int| 0 <= k < r@.len() ==> (#[trigger] r@[k]).text@ == old(self).tokens@[old(self).index + k].lexeme@,
    {
        let mut docs: Vec<DocComment> = Vec::new();
        while self.index < self.tokens.len() && self.tokens[self.index].kind == TokenKind::DocComment
            invariant
                self.wf(),
                Self::continues(old(self), self),
                self.diagnostics == old(self).diagnostics,
                old(self).skip_docs(self.index as int) == old(self).skip_docs(old(self).index as int),
                docs@.len() == self.index - old(self).index,
                forall|k: int| 0 <= k < docs@.len() ==> (#[trigger] docs@[k]).text@ == old(self).tokens@[old(self).index + k].lexeme@,
                old(self).cur() == Some(TokenKind::DocComment) && self.index == old(self).index
                    ==> self.cur() == Some(TokenKind::DocComment),
            decreases self.tokens@.len() - self.index,
        {
            let text = self.tokens[self.index].lexeme.clone();
            let span = self.tokens[self.index].span;
            docs.push(DocComment { text, span });
            self.advance();
        }
        docs
    }

    /// Reads `mut`, if present, as the declaration's modifiers.
    fn parse_declaration_modifiers(&mut self) -> (r: DeclModifiers)
        requires
            old(self).wf(),
        ensures
            Self::continues(old(self), final(self)),
            final(self).diagnostics == old(self).diagnostics,
            r.mutable == (old(self).cur() == Some(TokenKind::Keyword(Keyword::Mut))),
            final(self).index == (if r.mutable { old(self).index + 1 } else { old(self).index as int }),
    {
        let mutable = self.match_keyword(Keyword::Mut);
        DeclModifiers { mutable, inline: false, linkage: Linkage::Normal }
    }

    /// Reads `:label` after `break` or `continue`, when a name follows the colon.
    fn parse_optional_jump_label(&mut self) -> (r: Option<Label>)
        requires
            old(self).wf(),
        ensures
            Self::continues(old(self), final(self)),
            Self::at_jump_label(old(self)) ==> (r matches Some(l) && l.name.text@ == old(self).tokens@[old(self).index + 1].lexeme@
                && old(self).index < final(self).index),
            !Self::at_jump_label(old(self)) ==> r is None && *final(self) == *old(self),
    {
        let next = self.kind_after(self.index, 1);
        let named = match next {
            Some(TokenKind::Identifier) | Some(TokenKind::Keyword(_)) => true,
            _ => false,
        };
        if self.peek_operator(Operator::Colon) && named {
            self.advance();
            match self.parse_ident() {
                Some(name) => {
                    let span = name.span;
                    Some(Label { span, name })
                },
                None => None,
            }
        } else {
            None
        }
    }

    /// Reads `|name|` or `|_|` after a loop header; `_` binds nothing.
    fn parse_optional_pipe_binding(&mut self) -> (r: Option<Ident>)
        requires
            old(self).wf(),
        ensures
            Self::continues(old(self), final(self)),
            old(self).cur() != Some(TokenKind::Operator(Operator::Pipe)) ==> r is None && *final(self) == *old(self),
            old(self).cur() == Some(TokenKind::Operator(Operator::Pipe)) ==> old(self).index < final(self).index,
            r matches Some(id) ==> (old(self).cur() == Some(TokenKind::Operator(Operator::Pipe))
                && id.text@ == old(self).tokens@[old(self).index + 1].lexeme@),
    {
        if !self.match_operator(Operator::Pipe) {
            return None;
        }
        if self.peek_identifier_text("_") {
            self.advance();
            self.expect_operator(Operator::Pipe, "expected '|' after discard binding");
            return None;
        }
        let ident = self.parse_ident();
        self.expect_operator(Operator::Pipe, "expected '|' after for binding");
        ident
    }

    /// Reads the comma-separated error names after `!` in a type.
    fn parse_error_list(&mut self) -> (r: Vec<Ident>)
        requires
            old(self).wf(),
        ensures
            Self::continues(old(self), final(self)),
            (r@.len() > 0) == is_name_kind(old(self).cur()),
            r@.len() > 0 ==> old(self).index < final(self).index && r@[0].text@ == old(self).tokens@[old(self).index as int].lexeme@,
            r@.len() == 0 ==> *final(self) == *old(self),
    {
        let mut errors: Vec<Ident> = Vec::new();
        loop
            invariant
                self.wf(),
                Self::continues(old(self), self),
                errors@.len() == 0 ==> *self == *old(self),
                errors@.len() > 0 ==> is_name_kind(old(self).cur()) && old(self).index < self.index
                    && errors@[0].text@ == old(self).tokens@[old(self).index as int].lexeme@,
            ensures
                errors@.len() == 0 ==> *self == *old(self) && !is_name_kind(old(self).cur()),
                errors@.len() > 0 ==> is_name_kind(old(self).cur()) && old(self).index < self.index
                    && errors@[0].text@ == old(self).tokens@[old(self).index as int].lexeme@,
                self.wf(),
                Self::continues(old(self), self),
            decreases self.tokens@.len() - self.index,
        {
            let k = self.current_kind();
            let is_name = match k {
                Some(TokenKind::Identifier) | Some(TokenKind::Keyword(_)) => true,
                _ => false,
            };
            if !is_name {
                break;
            }
            match self.parse_ident() {
                Some(error_ident) => {
                    errors.push(error_ident);
                },
                None => {
                    break;
                },
            }
            if !self.match_delimiter(Delimiter::Comma) {
                break;
            }
        }
        errors
    }

    /// Reads the names bound by an enum pattern, up to the closing `)`.
    fn parse_pattern_binding_list(&mut self) -> (r: Vec<Ident>)
        requires
            old(self).wf(),
        ensures
            Self::progresses(old(self), final(self)),
            old(self).at_delim(Delimiter::RParen) ==> r@.len() == 0 && final(self).index == old(self).index + 1,
    {
        let mut bindings: Vec<Ident> = Vec::new();
        while !self.peek_delimiter(Delimiter::RParen) && !self.is_eof()
            invariant
                self.wf(),
                Self::continues(old(self), self),
                self.index == old(self).index ==> bindings@.len() == 0,
                old(self).at_delim(Delimiter::RParen) ==> self.index == old(self).index,
            ensures
                old(self).at_delim(Delimiter::RParen) ==> self.index == old(self).index,
                self.wf(),
                Self::continues(old(self), self),
                self.index == old(self).index ==> bindings@.len() == 0
                    && (self.at_delim(Delimiter::RParen) || self.index >= self.tokens@.len()),
            decreases self.tokens@.len() - self.index,
        {
            if let Some(ident) = self.parse_ident() {
                bindings.push(ident);
            }
            if !self.match_delimiter(Delimiter::Comma) {
                break;
            }
        }
        self.expect_delimiter(Delimiter::RParen, "expected ')' to close enum pattern bindings");
        bindings
    }

    /// Whether argument `arg_index` of a call to `callee` is a type: the
    /// first argument of `$as`, `$sizeof`, `$alignof` and `$offsetof`.
    fn should_parse_builtin_type_arg(&self, callee: Option<&Expr>, arg_index: usize) -> (r: bool)
        ensures
            r == (callee matches Some(e) && (e.kind matches ExprKind::BuiltinIdent(id)
                && arg_index == 0 && (id.text@ == "$as"@ || id.text@ == "$sizeof"@ || id.text@ == "$alignof"@
                || id.text@ == "$offsetof"@))),
    {
        match callee {
            Some(e) => match &e.kind {
                ExprKind::BuiltinIdent(id) => {
                    arg_index == 0 && (string_eq_str(&id.text, "$as") || string_eq_str(&id.text, "$sizeof")
                        || string_eq_str(&id.text, "$alignof") || string_eq_str(&id.text, "$offsetof"))
                },
                _ => false,
            },
            None => false,
        }
    }

    /// Reads an expression whose binary operators bind at least as tightly
    /// as `min_prec`, with `or` fallbacks.
    fn parse_expr(&mut self, min_prec: u8) -> (r: Option<Expr>)
        requires
            old(self).wf(),
        ensures
            r is None ==> Self::failed_visibly(old(self), final(self)),
            Self::progresses(old(self), final(self)),
            r is Some ==> old(self).index < final(self).index,
        decreases old(self).rem(), 7nat,
    {
        let mut left = match self.parse_prefix_expr() {
            Some(e) => e,
            None => return None,
        };
        loop
            invariant
                self.wf(),
                Self::continues(old(self), self),
                old(self).index < self.index,
            decreases self.tokens@.len() - self.index,
        {
            if self.match_keyword(Keyword::Or) {
                let capture = if self.match_operator(Operator::Pipe) {
                    let id = self.parse_ident();
                    self.expect_operator(Operator::Pipe, "expected '|' after or-capture");
                    id
                } else {
                    None
                };
                let fallback = match self.parse_expr(1) {
                    Some(e) => e,
                    None => return None,
                };
                let span = merge_span(left.span, fallback.span);
                left = Expr {
                    span,
                    kind: ExprKind::OrElse(OrElseExpr {
                        value: Box::new(left),
                        error_binding: capture,
                        fallback: Box::new(fallback),
                    }),
                };
                continue;
            }
            if self.peek_identifier_text("and") {
                let and_span = self.current_span();
                self.advance();
                self.report_parser_error(
                    DiagnosticCode::E3001,
                    string_from_str("word-form `and` operator is not supported"),
                    and_span,
                    string_from_str("replace `and` with `&&`"),
                );
                let right = match self.parse_expr(31) {
                    Some(e) => e,
                    None => return None,
                };
                let span = merge_span(left.span, right.span);
                left = Expr {
                    span,
                    kind: ExprKind::Binary { op: BinaryOp::LogicalAnd, left: Box::new(left), right: Box::new(right) },
                };
                continue;
            }
            let (op, prec, right_assoc) = match self.current_binary_op() {
                Some(t) => t,
                None => break,
            };
            if prec < min_prec {
                break;
            }
            self.advance();
            let next_min_prec: u8 = if right_assoc { prec } else { prec + 1 };
            let right = match self.parse_expr(next_min_prec) {
                Some(e) => e,
                None => return None,
            };
            let span = merge_span(left.span, right.span);
            left = Expr { span, kind: ExprKind::Binary { op, left: Box::new(left), right: Box::new(right) } };
        }
        Some(left)
    }

    /// Reads a prefix form: a keyword-led expression, a type literal, a unary
    /// operator, or a postfix expression.
    #[verifier::spinoff_prover]
    #[verifier::rlimit(60)]
    fn parse_prefix_expr(&mut self) -> (r: Option<Expr>)
        requires
            old(self).wf(),
        ensures
            r is None ==> Self::failed_visibly(old(self), final(self)),
            Self::progresses(old(self), final(self)),
            r is Some ==> old(self).index < final(self).index,
        decreases old(self).rem(), 6nat,
    {
        if self.match_keyword(Keyword::If) {
            return self.parse_if_expr();
        }
        if self.match_keyword(Keyword::Match) {
            return self.parse_match_expr();
        }
        if self.match_keyword(Keyword::For) {
            return self.parse_for_expr();
        }
        if self.match_keyword(Keyword::Extern) {
            let span = self.prev_span();
            self.report_parser_error(
                DiagnosticCode::E3001,
                string_from_str("extern declarations must use binding syntax"),
                span,
                string_from_str("use `name := extern (args) ret`"),
            );
            return None;
        }
        if self.match_keyword(Keyword::Break) {
            return Some(self.parse_break_expr());
        }
        if self.match_keyword(Keyword::Continue) {
            return Some(self.parse_continue_expr());
        }
        if self.match_keyword(Keyword::Return) {
            let start = self.prev_span();
            let value = if self.starts_expr() && self.current_starts_on_line(start.end_line) {
                match self.parse_expr(0) {
                    Some(e) => Some(Box::new(e)),
                    None => None,
                }
            } else {
                None
            };
            let span = match &value {
                Some(v) => merge_span(start, v.span),
                None => start,
            };
            return Some(Expr { span, kind: ExprKind::Return { value } });
        }
        if self.match_keyword(Keyword::Defer) {
            return self.parse_defer_expr();
        }
        if self.match_keyword(Keyword::Comp) {
            let start = self.prev_span();
            let expr = match self.parse_expr(100) {
                Some(e) => e,
                None => return None,
            };
            return Some(Expr { span: merge_span(start, expr.span), kind: ExprKind::Comptime { expr: Box::new(expr) } });
        }
        if self.match_keyword(Keyword::Inline) {
            let start = self.prev_span();
            let expr = match self.parse_expr(100) {
                Some(e) => e,
                None => return None,
            };
            return Some(Expr { span: merge_span(start, expr.span), kind: ExprKind::Inline { expr: Box::new(expr) } });
        }
        if self.match_keyword(Keyword::Use) {
            let start = self.prev_span();
            let path = match self.parse_string_literal() {
                Some(p) => p,
                None => return None,
            };
            let end = self.prev_span();
            return Some(Expr { span: merge_span(start, end), kind: ExprKind::Use { path } });
        }
        if self.match_keyword(Keyword::Packed) {
            let start = self.prev_span();
            if !self.match_keyword(Keyword::Struct) {
                let span = self.current_span();
                self.report_parser_error(
                    DiagnosticCode::E3001,
                    string_from_str("expected 'struct' after 'packed'"),
                    span,
                    string_from_str("use `packed struct { ... }`"),
                );
                return None;
            }
            let ty = match self.parse_struct_type(start, true) {
                Some(t) => t,
                None => return None,
            };
            return Some(Expr { span: ty.span, kind: ExprKind::TypeLiteral(ty) });
        }
        if self.match_keyword(Keyword::Struct) {
            let start = self.prev_span();
            let ty = match self.parse_struct_type(start, false) {
                Some(t) => t,
                None => return None,
            };
            return Some(Expr { span: ty.span, kind: ExprKind::TypeLiteral(ty) });
        }
        if self.match_keyword(Keyword::Enum) {
            let start = self.prev_span();
            let ty = match self.parse_enum_type(start) {
                Some(t) => t,
                None => return None,
            };
            return Some(Expr { span: ty.span, kind: ExprKind::TypeLiteral(ty) });
        }
        if self.match_operator(Operator::Minus) {
            return self.parse_unary(UnaryOp::Neg);
        }
        if self.match_operator(Operator::Bang) {
            return self.parse_unary(UnaryOp::Not);
        }
        if self.match_operator(Operator::Tilde) {
            return self.parse_unary(UnaryOp::BitNot);
        }
        if self.match_operator(Operator::Ampersand) {
            if self.match_keyword(Keyword::Mut) {
                return self.parse_unary(UnaryOp::RefMut);
            }
            return self.parse_unary(UnaryOp::Ref);
        }
        self.parse_postfix_expr()
    }

    /// Reads the operand of a prefix operator that was just consumed.
    fn parse_unary(&mut self, op: UnaryOp) -> (r: Option<Expr>)
        requires
            old(self).wf(),
        ensures
            r is None ==> Self::failed_visibly(old(self), final(self)),
            Self::progresses(old(self), final(self)),
            r matches Some(e) ==> (old(self).index > 0 ==> e.span.start_byte == old(self).tokens@[old(self).index
                - 1].span.start_byte),
            r matches Some(e) ==> (e.kind matches ExprKind::Unary { op: o, .. } && o == op),
        decreases old(self).rem(), 10nat,
    {
        let start = self.prev_span();
        let expr = match self.parse_expr(90) {
            Some(e) => e,
            None => return None,
        };
        Some(Expr { span: merge_span(start, expr.span), kind: ExprKind::Unary { op, expr: Box::new(expr) } })
    }

    /// Reads a primary expression and the calls, indexing, unwraps, field
    /// accesses and struct constructions that follow it.
    fn parse_postfix_expr(&mut self) -> (r: Option<Expr>)
        requires
            old(self).wf(),
        ensures
            r is None ==> Self::failed_visibly(old(self), final(self)),
            Self::progresses(old(self), final(self)),
            r is Some ==> old(self).index < final(self).index,
        decreases old(self).rem(), 5nat,
    {
        let mut expr = match self.parse_primary_expr() {
            Some(e) => e,
            None => return None,
        };
        loop
            invariant
                self.wf(),
                Self::continues(old(self), self),
                old(self).index < self.index,
            decreases self.tokens@.len() - self.index,
        {
            if self.match_delimiter(Delimiter::LParen) {
                expr = match self.finish_call(expr) {
                    Some(e) => e,
                    None => return None,
                };
                continue;
            }
            if self.match_delimiter(Delimiter::LBracket) {
                expr = match self.finish_index_or_slice(expr) {
                    Some(e) => e,
                    None => return None,
                };
                continue;
            }
            if self.peek_operator(Operator::DotQuestion) && self.current_touches_expr_end(expr.span) {
                self.advance();
                let span = merge_span(expr.span, self.prev_span());
                expr = Expr { span, kind: ExprKind::OptionalUnwrap { expr: Box::new(expr) } };
                continue;
            }
            if self.peek_operator(Operator::DotBang) && self.current_touches_expr_end(expr.span) {
                self.advance();
                let span = merge_span(expr.span, self.prev_span());
                expr = Expr { span, kind: ExprKind::ErrorUnwrap { expr: Box::new(expr) } };
                continue;
            }
            if self.peek_operator(Operator::DotStar) && self.current_touches_expr_end(expr.span) {
                self.advance();
                let span = merge_span(expr.span, self.prev_span());
                expr = Expr { span, kind: ExprKind::DerefAccess { base: Box::new(expr) } };
                continue;
            }
            if self.peek_operator(Operator::Dot) && self.current_touches_expr_end(expr.span) {
                self.advance();
                if self.match_delimiter(Delimiter::LBrace) {
                    let open = self.prev_span();
                    expr = match self.finish_struct_literal(None, open) {
                        Some(e) => e,
                        None => return None,
                    };
                    continue;
                }
                let field = match self.parse_ident() {
                    Some(f) => f,
                    None => return None,
                };
                let span = merge_span(expr.span, field.span);
                expr = Expr { span, kind: ExprKind::FieldAccess { base: Box::new(expr), field } };
                continue;
            }
            // `expr{...}` builds a struct of type `expr` when the brace touches the expression.
            if self.peek_delimiter(Delimiter::LBrace) && self.current_touches_expr_end(expr.span)
                && !self.disallow_ident_struct_literal
            {
                let start = expr.span;
                self.advance();
                let fields = match self.parse_struct_literal_fields(true) {
                    Some(f) => f,
                    None => return None,
                };
                let end = self.current_span();
                self.expect_delimiter(Delimiter::RBrace, "expected '}' after struct construction");
                expr = Expr {
                    span: merge_span(start, end),
                    kind: ExprKind::TypeConstruct { ty_expr: Box::new(expr), fields },
                };
                continue;
            }
            break;
        }
        Some(expr)
    }

    /// Reads a primary expression: a literal, a name (possibly a labelled
    /// block or a struct literal), a parenthesized expression or function
    /// literal, an array, a block or tuple, or an anonymous enum variant or
    /// struct literal. Any other token is reported and skipped.
    fn parse_primary_expr(&mut self) -> (r: Option<Expr>)
        requires
            old(self).wf(),
        ensures
            old(self).at_delim(Delimiter::LBracket) ==> (r matches Some(e) ==> e.kind is ArrayLiteral),
            old(self).at_delim(Delimiter::LBracket) ==> (r matches Some(e) ==> (e.kind matches ExprKind::ArrayLiteral(els)
                && (els.len() == 0) == Self::closes_at(old(self), old(self).index + 1, Delimiter::RBracket))),
            old(self).at_delim(Delimiter::LBrace) ==> (r matches Some(e) ==> (e.kind matches ExprKind::TupleLiteral(els)
                ==> (els.len() == 0) == Self::closes_at(old(self), old(self).index + 1, Delimiter::RBrace))),
            old(self).at_delim(Delimiter::LBrace) ==> (r matches Some(e) ==> (e.kind is TupleLiteral || (e.kind matches ExprKind::Block(
                b,
            ) && b.label is None))),
            old(self).cur() == Some(TokenKind::Operator(Operator::Dot)) ==> (r matches Some(e) ==> ((e.kind matches ExprKind::EnumVariantConstruct(
                v,
            ) && v.root is None && v.variant.text@ == old(self).tokens@[old(self).index + 1].lexeme@) || (e.kind matches ExprKind::StructLiteral(
                sl,
            ) && sl.root_type is None) || e.kind is TupleLiteral)),
            old(self).cur() == Some(TokenKind::Identifier) && old(self).kind_at(old(self).index + 1) == Some(
                TokenKind::Delimiter(Delimiter::LBrace),
            ) && !old(self).disallow_ident_struct_literal ==> (r matches Some(e) ==> (e.kind matches ExprKind::StructLiteral(sl)
                && (sl.root_type matches Some(n) && n.text@ == old(self).tokens@[old(self).index as int].lexeme@))),
            old(self).cur() == Some(TokenKind::Identifier) && old(self).kind_at(old(self).index + 1) == Some(
                TokenKind::Operator(Operator::Colon),
            ) && !old(self).disallow_labeled_block && (old(self).kind_at(old(self).index + 2) == Some(
                TokenKind::Delimiter(Delimiter::LBrace),
            ) || old(self).kind_at(old(self).index + 2) == Some(TokenKind::Keyword(Keyword::For))) ==> (r matches Some(e) ==> (
            e.kind matches ExprKind::Block(b) && (b.label matches Some(l) && l.name.text@ == old(self).tokens@[old(self).index as int].lexeme@))),
            r is None ==> Self::failed_visibly(old(self), final(self)),
            Self::progresses(old(self), final(self)),
            r is Some ==> old(self).index < final(self).index,
            old(self).index >= old(self).tokens@.len() ==> r is None && *final(self) == *old(self),
            old(self).index < old(self).tokens@.len() && is_literal_token(old(self).tokens@[old(self).index as int].kind)
                ==> (r matches Some(e) && e.span == old(self).tokens@[old(self).index as int].span && literal_token_expr(
                old(self).tokens@[old(self).index as int].kind,
                old(self).tokens@[old(self).index as int].lexeme@,
                e.kind,
            ) && final(self).index == old(self).index + 1 && final(self).diagnostics == old(self).diagnostics),
            old(self).cur() == Some(TokenKind::Identifier) && old(self).kind_at(old(self).index + 1) != Some(
                TokenKind::Operator(Operator::Colon),
            ) && old(self).kind_at(old(self).index + 1) != Some(TokenKind::Delimiter(Delimiter::LBrace)) ==> (r matches Some(
                e,
            ) && (e.kind matches ExprKind::Ident(id) && id.text@ == old(self).tokens@[old(self).index as int].lexeme@
                && id.span == old(self).tokens@[old(self).index as int].span) && final(self).index == old(self).index + 1
                && final(self).diagnostics == old(self).diagnostics),
            old(self).index < old(self).tokens@.len() && !starts_primary(old(self).tokens@[old(self).index as int].kind)
                ==> (r is None && final(self).index == old(self).index + 1 && final(self).diagnostics@.len()
                == old(self).diagnostics@.len() + 1 && final(self).diagnostics@.last().code == DiagnosticCode::E3002
                && final(self).diagnostics@.last().message@ == "unexpected token in expression"@),
        decreases old(self).rem(), 4nat,
    {
        if self.index >= self.tokens.len() {
            return None;
        }
        let kind = self.tokens[self.index].kind;
        let span = self.tokens[self.index].span;
        match kind {
            TokenKind::IntLiteral => {
                let lexeme = self.tokens[self.index].lexeme.clone();
                self.advance();
                Some(Expr { span, kind: ExprKind::Literal(Literal::Integer(lexeme)) })
            },
            TokenKind::FloatLiteral => {
                let lexeme = self.tokens[self.index].lexeme.clone();
                self.advance();
                Some(Expr { span, kind: ExprKind::Literal(Literal::Float(lexeme)) })
            },
            TokenKind::StringLiteral => {
                let value = string_from_lexeme(self.tokens[self.index].lexeme.as_str());
                self.advance();
                Some(Expr { span, kind: ExprKind::Literal(Literal::String(value)) })
            },
            TokenKind::CharLiteral => {
                let value = char_from_lexeme(self.tokens[self.index].lexeme.as_str());
                self.advance();
                Some(Expr { span, kind: ExprKind::Literal(Literal::Char(value)) })
            },
            TokenKind::BoolLiteral(value) => {
                self.advance();
                Some(Expr { span, kind: ExprKind::Literal(Literal::Bool(value)) })
            },
            TokenKind::NullLiteral => {
                self.advance();
                Some(Expr { span, kind: ExprKind::Literal(Literal::Null) })
            },
            TokenKind::Identifier => {
                let text = self.tokens[self.index].lexeme.clone();
                self.advance();
                let ident = Ident { text, span };
                if !self.disallow_labeled_block && self.peek_operator(Operator::Colon)
                    && (self.peek_next_kind(TokenKind::Delimiter(Delimiter::LBrace))
                    || self.peek_next_kind(TokenKind::Keyword(Keyword::For)))
                {
                    self.advance();
                    if self.match_keyword(Keyword::For) {
                        let for_expr = match self.parse_for_expr() {
                            Some(e) => e,
                            None => return None,
                        };
                        let full = merge_span(span, for_expr.span);
                        return Some(Expr {
                            span: full,
                            kind: ExprKind::Block(BlockExpr {
                                label: Some(Label { name: ident, span }),
                                statements: Vec::new(),
                                tail_expr: Some(Box::new(for_expr)),
                            }),
                        });
                    }
                    let block = match self.parse_block_expr() {
                        Some(b) => b,
                        None => return None,
                    };
                    let Expr { span: block_span, kind: block_kind } = block;
                    let labelled = match block_kind {
                        ExprKind::Block(b) => ExprKind::Block(BlockExpr {
                            label: Some(Label { name: ident, span }),
                            statements: b.statements,
                            tail_expr: b.tail_expr,
                        }),
                        other => other,
                    };
                    return Some(Expr { span: block_span, kind: labelled });
                }
                if !self.disallow_ident_struct_literal && self.match_delimiter(Delimiter::LBrace) {
                    self.finish_struct_literal(Some(ident), span)
                } else {
                    Some(Expr { span, kind: ExprKind::Ident(ident) })
                }
            },
            TokenKind::BuiltinIdentifier => {
                let text = self.tokens[self.index].lexeme.clone();
                self.advance();
                Some(Expr { span, kind: ExprKind::BuiltinIdent(Ident { text, span }) })
            },
            TokenKind::Delimiter(Delimiter::LParen) => {
                if self.looks_like_fn_literal() {
                    self.parse_fn_expr()
                } else {
                    self.advance();
                    let mut expr = match self.parse_expr(0) {
                        Some(e) => e,
                        None => return None,
                    };
                    self.expect_delimiter(Delimiter::RParen, "expected ')' after expression");
                    // The span takes in the `)` so that postfix operators see it as touching.
                    let close_span = self.prev_span();
                    expr.span = merge_span(expr.span, close_span);
                    Some(expr)
                }
            },
            TokenKind::Delimiter(Delimiter::LBracket) => self.parse_array_literal(),
            TokenKind::Delimiter(Delimiter::LBrace) => self.parse_brace_expr(),
            TokenKind::Operator(Operator::Dot) => {
                self.advance();
                if self.match_delimiter(Delimiter::LBrace) {
                    return self.finish_struct_literal(None, span);
                }
                let variant = match self.parse_ident() {
                    Some(v) => v,
                    None => return None,
                };
                if self.match_delimiter(Delimiter::LParen) {
                    let payload = self.parse_arg_values();
                    let end = self.prev_span();
                    return Some(Expr {
                        span: merge_span(span, end),
                        kind: ExprKind::EnumVariantConstruct(EnumVariantExpr { root: None, variant, payload }),
                    });
                }
                let full = merge_span(span, variant.span);
                Some(Expr {
                    span: full,
                    kind: ExprKind::EnumVariantConstruct(EnumVariantExpr { root: None, variant, payload: Vec::new() }),
                })
            },
            _ => {
                self.report_parser_error(
                    DiagnosticCode::E3002,
                    string_from_str("unexpected token in expression"),
                    span,
                    string_from_str("token cannot start an expression"),
                );
                self.advance();
                None
            },
        }
    }

    /// Reads a `{`-led expression: a tuple literal when a top-level comma
    /// follows, else a block.
    fn parse_brace_expr(&mut self) -> (r: Option<Expr>)
        requires
            old(self).wf(),
        ensures
            r matches Some(e) ==> (e.kind is TupleLiteral || (e.kind matches ExprKind::Block(b) && b.label is None)),
            r is None ==> Self::failed_visibly(old(self), final(self)),
            Self::continues(old(self), final(self)),
            old(self).at_delim(Delimiter::LBrace) ==> old(self).index < final(self).index,
            old(self).at_delim(Delimiter::LBrace) ==> (r matches Some(e) ==> (e.kind matches ExprKind::TupleLiteral(els)
                ==> (els.len() == 0) == Self::closes_at(old(self), old(self).index + 1, Delimiter::RBrace))),
        decreases old(self).rem(), if old(self).at_delim(Delimiter::LBrace) { 3nat } else { 22nat },
    {
        if self.looks_like_tuple_literal() {
            self.parse_tuple_literal()
        } else {
            self.parse_block_expr()
        }
    }

    /// Reads `{ a, b, ... }` as a tuple literal.
    fn parse_tuple_literal(&mut self) -> (r: Option<Expr>)
        requires
            old(self).wf(),
        ensures
            r matches Some(e) ==> e.kind is TupleLiteral,
            r is None ==> Self::failed_visibly(old(self), final(self)),
            Self::continues(old(self), final(self)),
            old(self).at_delim(Delimiter::LBrace) ==> old(self).index < final(self).index,
            old(self).at_delim(Delimiter::LBrace) ==> (r matches Some(e) ==> (e.kind matches ExprKind::TupleLiteral(els)
                && (els.len() == 0) == Self::closes_at(old(self), old(self).index + 1, Delimiter::RBrace))),
        decreases old(self).rem(), if old(self).at_delim(Delimiter::LBrace) { 1nat } else { 20nat },
    {
        let start = self.current_span();
        let ghost opened = old(self).at_delim(Delimiter::LBrace);
        self.expect_delimiter(Delimiter::LBrace, "expected '{'");
        let mut elements: Vec<Expr> = Vec::new();
        let ghost closed0 = Self::closes_at(old(self), old(self).index + 1, Delimiter::RBrace);
        while !self.peek_delimiter(Delimiter::RBrace) && !self.is_eof()
            invariant
                self.wf(),
                Self::continues(old(self), self),
                opened ==> (elements@.len() == 0 ==> self.index == old(self).index + 1),
                opened ==> (closed0 ==> elements@.len() == 0),
                opened == old(self).at_delim(Delimiter::LBrace),
                closed0 == Self::closes_at(old(self), old(self).index + 1, Delimiter::RBrace),
                old(self).at_delim(Delimiter::LBrace) ==> old(self).index < self.index,
            ensures
                self.wf(),
                Self::continues(old(self), self),
                old(self).at_delim(Delimiter::LBrace) ==> old(self).index < self.index,
                opened ==> ((elements@.len() == 0) == closed0),
            decreases self.tokens@.len() - self.index,
        {
            proof {
                assert(!self.at_delim(Delimiter::RBrace));
                assert(self.index < self.tokens@.len());
                if opened && elements@.len() == 0 {
                    assert(self.tokens@ == old(self).tokens@);
                    assert(self.index < self.tokens@.len());
                    assert(self.kind_at(self.index as int) == old(self).kind_at(old(self).index + 1));
                }
                assert(opened ==> !closed0);
            }
            let element = match self.parse_expr(0) {
                Some(e) => e,
                None => return None,
            };
            elements.push(element);
            if !self.match_delimiter(Delimiter::Comma) {
                if self.peek_delimiter(Delimiter::RBrace) {
                    break;
                }
                if self.starts_expr() {
                    let span = self.current_span();
                    self.report_parser_error(
                        DiagnosticCode::E3001,
                        string_from_str("expected ',' between tuple literal elements"),
                        span,
                        string_from_str("insert ',' to separate tuple elements"),
                    );
                    continue;
                }
                break;
            }
        }
        let end = self.current_span();
        self.expect_delimiter(Delimiter::RBrace, "expected '}' after tuple literal");
        Some(Expr { span: merge_span(start, end), kind: ExprKind::TupleLiteral(elements) })
    }

    /// Reads `[ a, b, ... ]` as an array literal.
    fn parse_array_literal(&mut self) -> (r: Option<Expr>)
        requires
            old(self).wf(),
        ensures
            r matches Some(e) ==> e.kind is ArrayLiteral,
            r is None ==> Self::failed_visibly(old(self), final(self)),
            Self::continues(old(self), final(self)),
            old(self).at_delim(Delimiter::LBracket) ==> old(self).index < final(self).index,
            old(self).at_delim(Delimiter::LBracket) ==> (r matches Some(e) ==> (e.kind matches ExprKind::ArrayLiteral(els)
                && (els.len() == 0) == Self::closes_at(old(self), old(self).index + 1, Delimiter::RBracket))),
        decreases old(self).rem(), if old(self).at_delim(Delimiter::LBracket) { 1nat } else { 20nat },
    {
        let start = self.current_span();
        let ghost opened = old(self).at_delim(Delimiter::LBracket);
        self.expect_delimiter(Delimiter::LBracket, "expected '['");
        let mut elements: Vec<Expr> = Vec::new();
        let ghost closed0 = Self::closes_at(old(self), old(self).index + 1, Delimiter::RBracket);
        while !self.peek_delimiter(Delimiter::RBracket) && !self.is_eof()
            invariant
                self.wf(),
                Self::continues(old(self), self),
                opened ==> (elements@.len() == 0 ==> self.index == old(self).index + 1),
                opened ==> (closed0 ==> elements@.len() == 0),
                opened == old(self).at_delim(Delimiter::LBracket),
                closed0 == Self::closes_at(old(self), old(self).index + 1, Delimiter::RBracket),
                old(self).at_delim(Delimiter::LBracket) ==> old(self).index < self.index,
            ensures
                self.wf(),
                Self::continues(old(self), self),
                old(self).at_delim(Delimiter::LBracket) ==> old(self).index < self.index,
                opened ==> ((elements@.len() == 0) == closed0),
            decreases self.tokens@.len() - self.index,
        {
            proof {
                assert(!self.at_delim(Delimiter::RBracket));
                assert(self.index < self.tokens@.len());
                if opened && elements@.len() == 0 {
                    assert(self.tokens@ == old(self).tokens@);
                    assert(self.index < self.tokens@.len());
                    assert(self.kind_at(self.index as int) == old(self).kind_at(old(self).index + 1));
                }
                assert(opened ==> !closed0);
            }
            let element = match self.parse_expr(0) {
                Some(e) => e,
                None => return None,
            };
            elements.push(element);
            if !self.match_delimiter(Delimiter::Comma) {
                if self.peek_delimiter(Delimiter::RBracket) {
                    break;
                }
                if self.starts_expr() {
                    let span = self.current_span();
                    self.report_parser_error(
                        DiagnosticCode::E3001,
                        string_from_str("expected ',' between array literal elements"),
                        span,
                        string_from_str("insert ',' to separate array elements"),
                    );
                    continue;
                }
                break;
            }
        }
        let end = self.current_span();
        self.expect_delimiter(Delimiter::RBracket, "expected ']' after array literal");
        Some(Expr { span: merge_span(start, end), kind: ExprKind::ArrayLiteral(elements) })
    }

    /// Reads a block.
    fn parse_block_expr(&mut self) -> (r: Option<Expr>)
        requires
            old(self).wf(),
        ensures
            r matches Some(e) ==> (e.kind matches ExprKind::Block(b) && b.label is None),
            r is None ==> Self::failed_visibly(old(self), final(self)),
            Self::continues(old(self), final(self)),
            old(self).at_delim(Delimiter::LBrace) ==> old(self).index < final(self).index,
        decreases old(self).rem(), if old(self).at_delim(Delimiter::LBrace) { 2nat } else { 21nat },
    {
        match self.parse_block_expr_with_status() {
            Some((expr, _closed)) => Some(expr),
            None => None,
        }
    }

    /// Reads a block: statements up to the closing `}`, and whether that
    /// `}` was there. The last statement becomes the block's value when it
    /// is an expression that can be one.
    fn parse_block_expr_with_status(&mut self) -> (r: Option<(Expr, bool)>)
        requires
            old(self).wf(),
        ensures
            r matches Some(x) ==> (x.0.kind matches ExprKind::Block(b) && b.label is None),
            r matches Some(x) && !x.1 ==> final(self).diagnostics@.len() > 0,
            r is None ==> Self::failed_visibly(old(self), final(self)),
            Self::continues(old(self), final(self)),
            old(self).at_delim(Delimiter::LBrace) ==> old(self).index < final(self).index,
        decreases old(self).rem(), if old(self).at_delim(Delimiter::LBrace) { 1nat } else { 20nat },
    {
        let start = self.current_span();
        self.expect_delimiter(Delimiter::LBrace, "expected '{'");
        let mut statements: Vec<Stmt> = Vec::new();
        // Whether the last statement is an expression that is the block's value.
        let mut tail_is_last = false;
        while !self.peek_delimiter(Delimiter::RBrace) && !self.is_eof()
            invariant
                self.wf(),
                Self::continues(old(self), self),
                old(self).at_delim(Delimiter::LBrace) ==> old(self).index < self.index,
            decreases self.tokens@.len() - self.index,
        {
            let ghost iteration_start = self.index;
            if self.match_delimiter(Delimiter::Semicolon) {
                continue;
            }
            if self.looks_like_destructure_binding() {
                let parsed = self.parse_destructure_declaration(
                    Vec::new(),
                    Visibility::Private,
                    DeclModifiers { mutable: false, inline: false, linkage: Linkage::Normal },
                );
                if let Some(Item::Declaration(decl)) = parsed {
                    if let Some(stmt) = self.declaration_to_stmt(decl) {
                        statements.push(stmt);
                    }
                    tail_is_last = false;
                    self.match_delimiter(Delimiter::Semicolon);
                    continue;
                }
            }
            if self.peek_kind(TokenKind::DocComment) || self.looks_like_local_binding() {
                if let Some(Item::Declaration(decl)) = self.parse_item(false) {
                    if let Some(stmt) = self.declaration_to_stmt(decl) {
                        statements.push(stmt);
                    }
                    tail_is_last = false;
                    self.match_delimiter(Delimiter::Semicolon);
                    continue;
                }
            }
            if self.starts_assignment_stmt() {
                let before = self.index;
                if let Some(stmt) = self.parse_assignment_stmt() {
                    statements.push(stmt);
                    tail_is_last = false;
                    self.match_delimiter(Delimiter::Semicolon);
                    continue;
                }
                self.index = before;
            }
            let before = self.index;
            match self.parse_expr(0) {
                Some(expr) => {
                    let can_tail = expr_can_be_block_tail(&expr);
                    statements.push(Stmt::Expr(Box::new(expr)));
                    tail_is_last = can_tail;
                    self.match_delimiter(Delimiter::Semicolon);
                },
                None => {
                    if self.index == before {
                        self.advance();
                    }
                },
            }
            assert(iteration_start < self.index);
        }
        let end = self.current_span();
        let closed = self.peek_delimiter(Delimiter::RBrace);
        self.expect_delimiter(Delimiter::RBrace, "expected '}' to close block");
        let tail_expr = if tail_is_last {
            match statements.pop() {
                Some(Stmt::Expr(e)) => Some(e),
                Some(other) => {
                    statements.push(other);
                    None
                },
                None => None,
            }
        } else {
            None
        };
        Some((
            Expr {
                span: merge_span(start, end),
                kind: ExprKind::Block(BlockExpr { label: None, statements, tail_expr }),
            },
            closed,
        ))
    }

    /// Skips a `{ ... }` with its nested braces balanced, as an empty block.
    /// It is read only after the block's missing `}` has been reported.
    fn parse_balanced_block_expr(&mut self) -> (r: Option<Expr>)
        requires
            old(self).wf(),
            old(self).diagnostics@.len() > 0,
        ensures
            r is None ==> Self::failed_visibly(old(self), final(self)),
            Self::continues(old(self), final(self)),
            old(self).at_delim(Delimiter::LBrace) ==> (old(self).index < final(self).index && final(self).diagnostics
                == old(self).diagnostics && (final(self).index >= final(self).tokens@.len()
                || final(self).tokens@[final(self).index - 1].kind == TokenKind::Delimiter(Delimiter::RBrace))),
            old(self).at_delim(Delimiter::LBrace) ==> (r matches Some(e) && e.kind matches ExprKind::Block(b)
                && b.label is None && b.statements.len() == 0 && b.tail_expr is None),
        decreases old(self).rem(), if old(self).at_delim(Delimiter::LBrace) { 1nat } else { 22nat },
    {
        if !self.peek_delimiter(Delimiter::LBrace) {
            return self.parse_block_expr();
        }
        let start = self.current_span();
        let n = self.tokens.len();
        self.advance();
        let mut depth: usize = 1;
        let mut end = start;
        while !self.is_eof()
            invariant_except_break
                1 <= depth,
            invariant
                n == self.tokens@.len(),
                self.wf(),
                Self::continues(old(self), self),
                depth <= self.index - old(self).index,
                old(self).index < self.index,
                self.diagnostics == old(self).diagnostics,
                self.diagnostics@.len() > 0,
            ensures
                self.index >= self.tokens@.len() || self.tokens@[self.index - 1].kind == TokenKind::Delimiter(
                    Delimiter::RBrace,
                ),
            decreases self.tokens@.len() - self.index,
        {
            let span = self.current_span();
            match self.current_kind() {
                Some(TokenKind::Delimiter(Delimiter::LBrace)) => {
                    depth = depth + 1;
                    self.advance();
                },
                Some(TokenKind::Delimiter(Delimiter::RBrace)) => {
                    depth = depth - 1;
                    end = span;
                    self.advance();
                    if depth == 0 {
                        break;
                    }
                },
                _ => {
                    self.advance();
                },
            }
        }
        Some(Expr {
            span: merge_span(start, end),
            kind: ExprKind::Block(BlockExpr { label: None, statements: Vec::new(), tail_expr: None }),
        })
    }

    /// Reads the rest of an `if`: condition, optional `:|a, b|` capture,
    /// then-branch and optional `else` branch.
    fn parse_if_expr(&mut self) -> (r: Option<Expr>)
        requires
            old(self).wf(),
        ensures
            r is None ==> Self::failed_visibly(old(self), final(self)),
            Self::progresses(old(self), final(self)),
            r matches Some(e) ==> (old(self).index > 0 ==> e.span.start_byte == old(self).tokens@[old(self).index
                - 1].span.start_byte),
            r matches Some(e) ==> e.kind is If,
        decreases old(self).rem(), 10nat,
    {
        let start = self.prev_span();
        let prev_struct_literal = self.disallow_ident_struct_literal;
        self.disallow_ident_struct_literal = true;
        self.disallow_labeled_block = true;
        let condition = match self.parse_expr(0) {
            Some(e) => e,
            None => return None,
        };
        self.disallow_labeled_block = false;
        self.disallow_ident_struct_literal = prev_struct_literal;
        let capture = if self.match_operator(Operator::Colon) {
            self.expect_operator(Operator::Pipe, "expected '|' in if-capture");
            let mut bindings: Vec<Option<Ident>> = Vec::new();
            loop
                invariant
                    self.wf(),
                    Self::continues(old(self), self),
                    old(self).index < self.index,
                decreases self.tokens@.len() - self.index,
            {
                let binding = if self.peek_identifier_text("_") {
                    self.advance();
                    None
                } else {
                    self.parse_ident()
                };
                bindings.push(binding);
                if !self.match_delimiter(Delimiter::Comma) {
                    break;
                }
            }
            self.expect_operator(Operator::Pipe, "expected closing '|' in if-capture");
            Some(IfCapture { bindings })
        } else {
            None
        };
        let then_branch = match self.parse_stmt_expr_bridge() {
            Some(e) => e,
            None => return None,
        };
        let else_branch = if self.match_keyword(Keyword::Else) {
            match self.parse_stmt_expr_bridge() {
                Some(e) => Some(Box::new(e)),
                None => return None,
            }
        } else {
            None
        };
        let end_span = match &else_branch {
            Some(e) => e.span,
            None => then_branch.span,
        };
        Some(Expr {
            span: merge_span(start, end_span),
            kind: ExprKind::If(IfExpr {
                condition: Box::new(condition),
                capture,
                then_branch: Box::new(then_branch),
                else_branch,
            }),
        })
    }

    /// Reads what follows a match pattern: an optional `if` guard, the `:`
    /// (a `=>` is reported and accepted), an optional `|name|` capture, and
    /// the arm's value.
    fn parse_arm_body(&mut self) -> (r: Option<(Option<Expr>, Option<Ident>, Expr)>)
        requires
            old(self).wf(),
        ensures
            r is None ==> Self::failed_visibly(old(self), final(self)),
            Self::progresses(old(self), final(self)),
            r matches Some(b) ==> (b.0 is Some <==> old(self).cur() == Some(TokenKind::Keyword(Keyword::If))),
        decreases old(self).rem(), 10nat,
    {
        let guard = if self.match_keyword(Keyword::If) {
            match self.parse_expr(0) {
                Some(g) => Some(g),
                None => return None,
            }
        } else {
            None
        };
        if self.match_operator(Operator::FatArrow) {
            let span = self.prev_span();
            self.report_parser_error(
                DiagnosticCode::E3001,
                string_from_str("expected ':' after match pattern"),
                span,
                string_from_str("match arms use ':'; replace '=>' with ':'"),
            );
        } else {
            self.expect_operator(Operator::Colon, "expected ':' after match pattern");
        }
        let mut capture: Option<Ident> = None;
        if self.match_operator(Operator::Pipe) {
            if self.peek_identifier_text("_") {
                self.advance();
            } else {
                capture = self.parse_ident();
            }
            self.expect_operator(Operator::Pipe, "expected closing '|' in match capture");
        }
        let value = match self.parse_expr(0) {
            Some(v) => v,
            None => return None,
        };
        Some((guard, capture, value))
    }

    /// Reads the rest of a `match`: the scrutinee and the arms. An arm may
    /// list several patterns separated by commas; each gets its own copy of
    /// the guard and value, read again from the same tokens.
    fn parse_match_expr(&mut self) -> (r: Option<Expr>)
        requires
            old(self).wf(),
        ensures
            r is None ==> Self::failed_visibly(old(self), final(self)),
            Self::progresses(old(self), final(self)),
            r matches Some(e) ==> (old(self).index > 0 ==> e.span.start_byte == old(self).tokens@[old(self).index
                - 1].span.start_byte),
            r matches Some(e) ==> e.kind is Match,
        decreases old(self).rem(), 10nat,
    {
        let start = self.prev_span();
        let previous = self.disallow_ident_struct_literal;
        self.disallow_ident_struct_literal = true;
        let scrutinee = self.parse_expr(0);
        self.disallow_ident_struct_literal = previous;
        let scrutinee = match scrutinee {
            Some(e) => e,
            None => return None,
        };
        self.expect_delimiter(Delimiter::LBrace, "expected '{' after match expression");
        let mut arms: Vec<MatchArm> = Vec::new();
        while !self.peek_delimiter(Delimiter::RBrace) && !self.is_eof()
            invariant
                self.wf(),
                Self::continues(old(self), self),
                old(self).index < self.index,
            decreases self.tokens@.len() - self.index,
        {
            let ghost iteration_start = self.index;
            let pattern = match self.parse_pattern() {
                Some(p) => p,
                None => return None,
            };
            let mut extra_patterns: Vec<Pattern> = Vec::new();
            loop
                invariant
                    self.wf(),
                    Self::continues(old(self), self),
                    old(self).index < self.index,
                    iteration_start < self.index,
                decreases self.tokens@.len() - self.index,
            {
                let next = self.kind_after(self.index, 1);
                let literal_next = match next {
                    Some(TokenKind::CharLiteral) | Some(TokenKind::IntLiteral) | Some(TokenKind::FloatLiteral)
                    | Some(TokenKind::StringLiteral) | Some(TokenKind::BoolLiteral(_)) | Some(TokenKind::NullLiteral)
                    | Some(TokenKind::Operator(Operator::Dot)) => true,
                    _ => false,
                };
                if !(self.peek_delimiter(Delimiter::Comma) && literal_next) {
                    break;
                }
                self.advance();
                if let Some(extra) = self.parse_pattern() {
                    extra_patterns.push(extra);
                }
            }
            let body_start = self.index;
            let flags_at_body = (self.disallow_ident_struct_literal, self.disallow_labeled_block);
            let (guard, capture, value) = match self.parse_arm_body() {
                Some(b) => b,
                None => return None,
            };
            let pattern = match capture {
                Some(capture) => with_enum_capture(pattern, capture),
                None => pattern,
            };
            let arm_span = merge_span(pattern.span, value.span);
            while extra_patterns.len() > 0
                invariant
                    self.wf(),
                    Self::continues(old(self), self),
                    old(self).index < body_start <= self.index,
                    iteration_start < body_start,
                decreases extra_patterns.len(),
            {
                let end_index = self.index;
                let flags_at_end = (self.disallow_ident_struct_literal, self.disallow_labeled_block);
                let kept = self.diagnostics.len();
                self.index = body_start;
                self.disallow_ident_struct_literal = flags_at_body.0;
                self.disallow_labeled_block = flags_at_body.1;
                let copy = self.parse_arm_body();
                self.index = end_index;
                self.disallow_ident_struct_literal = flags_at_end.0;
                self.disallow_labeled_block = flags_at_end.1;
                self.diagnostics.truncate(kept);
                let extra = extra_patterns.remove(0);
                if let Some((copy_guard, _, copy_value)) = copy {
                    arms.push(MatchArm { pattern: extra, guard: copy_guard, value: copy_value, span: arm_span });
                }
            }
            arms.push(MatchArm { pattern, guard, value, span: arm_span });
            if self.match_delimiter(Delimiter::Comma) {
                continue;
            }
            if self.peek_delimiter(Delimiter::RBrace) {
                break;
            }
            if self.looks_like_match_pattern_start() {
                let span = self.current_span();
                self.report_parser_error(
                    DiagnosticCode::E3001,
                    string_from_str("expected ',' between match arms"),
                    span,
                    string_from_str("insert ',' to separate match arms"),
                );
                continue;
            }
            break;
        }
        let end = self.current_span();
        self.expect_delimiter(Delimiter::RBrace, "expected '}' to close match expression");
        Some(Expr {
            span: merge_span(start, end),
            kind: ExprKind::Match(MatchExpr { scrutinee: Box::new(scrutinee), arms }),
        })
    }

    /// Reads the rest of a `for`: an endless loop, a range loop, an
    /// iteration with a `|binding|`, or a while-like loop.
    fn parse_for_expr(&mut self) -> (r: Option<Expr>)
        requires
            old(self).wf(),
        ensures
            r is None ==> Self::failed_visibly(old(self), final(self)),
            Self::progresses(old(self), final(self)),
            r matches Some(e) ==> (old(self).index > 0 ==> e.span.start_byte == old(self).tokens@[old(self).index
                - 1].span.start_byte),
            r matches Some(e) ==> e.kind is For,
            old(self).at_delim(Delimiter::LBrace) && r is Some ==> r->0.kind matches ExprKind::For(ForExpr::Infinite { .. }),
        decreases old(self).rem(), 10nat,
    {
        let start = self.prev_span();
        if self.peek_delimiter(Delimiter::LBrace) {
            let body = match self.parse_stmt_expr_bridge() {
                Some(b) => b,
                None => return None,
            };
            let span = merge_span(start, body.span);
            return Some(Expr { span, kind: ExprKind::For(ForExpr::Infinite { body: Box::new(body) }) });
        }
        let prev_struct_literal = self.disallow_ident_struct_literal;
        self.disallow_ident_struct_literal = true;
        self.disallow_labeled_block = true;
        let left = match self.parse_expr(11) {
            Some(e) => e,
            None => return None,
        };
        self.disallow_labeled_block = false;
        self.disallow_ident_struct_literal = prev_struct_literal;
        if self.match_operator(Operator::DotDot) || self.match_operator(Operator::DotDotEq) {
            let inclusive = matches!(self.prev_kind(), Some(TokenKind::Operator(Operator::DotDotEq)));
            self.disallow_ident_struct_literal = true;
            self.disallow_labeled_block = true;
            let right = match self.parse_expr(11) {
                Some(e) => e,
                None => return None,
            };
            self.disallow_labeled_block = false;
            self.disallow_ident_struct_literal = prev_struct_literal;
            self.match_operator(Operator::Colon);
            let binding = self.parse_optional_pipe_binding();
            let body = match self.parse_stmt_expr_bridge() {
                Some(b) => b,
                None => return None,
            };
            let span = merge_span(start, body.span);
            return Some(Expr {
                span,
                kind: ExprKind::For(ForExpr::Range {
                    start: Box::new(left),
                    end: Box::new(right),
                    inclusive,
                    binding,
                    body: Box::new(body),
                }),
            });
        }
        self.match_operator(Operator::Colon);
        let binding = self.parse_optional_pipe_binding();
        let body = match self.parse_stmt_expr_bridge() {
            Some(b) => b,
            None => return None,
        };
        let span = merge_span(start, body.span);
        if binding.is_some() {
            Some(Expr {
                span,
                kind: ExprKind::For(ForExpr::Iterate { iterable: Box::new(left), binding, body: Box::new(body) }),
            })
        } else {
            Some(Expr { span, kind: ExprKind::For(ForExpr::WhileLike { condition: Box::new(left), body: Box::new(body) }) })
        }
    }

    /// Reads the rest of a `break`: an optional label, and a value when an
    /// expression starts on the same line.
    fn parse_break_expr(&mut self) -> (r: Expr)
        requires
            old(self).wf(),
        ensures
            Self::continues(old(self), final(self)),
            r.kind matches ExprKind::Break(b) && (b.label is Some <==> Self::at_jump_label(old(self))),
            r.kind matches ExprKind::Break(b) ==> (b.label matches Some(l) ==> l.name.text@ == old(self).tokens@[old(self).index
                + 1].lexeme@),
            Self::at_jump_label(old(self)) ==> old(self).index < final(self).index,
            old(self).index > 0 ==> r.span.start_byte == old(self).tokens@[old(self).index - 1].span.start_byte,
        decreases old(self).rem(), 10nat,
    {
        let start = self.prev_span();
        let label = self.parse_optional_jump_label();
        let value = if self.starts_expr() && self.current_starts_on_line(start.end_line) {
            match self.parse_expr(0) {
                Some(e) => Some(Box::new(e)),
                None => None,
            }
        } else {
            None
        };
        let end = match &value {
            Some(e) => e.span,
            None => start,
        };
        Expr { span: merge_span(start, end), kind: ExprKind::Break(BreakExpr { label, value }) }
    }

    /// Reads the rest of a `continue`: an optional label.
    fn parse_continue_expr(&mut self) -> (r: Expr)
        requires
            old(self).wf(),
        ensures
            Self::continues(old(self), final(self)),
            r.kind matches ExprKind::Continue { label } && (label is Some <==> Self::at_jump_label(old(self))),
            r.kind matches ExprKind::Continue { label } ==> (label matches Some(l) ==> l.name.text@
                == old(self).tokens@[old(self).index + 1].lexeme@),
            Self::at_jump_label(old(self)) ==> old(self).index < final(self).index,
            !Self::at_jump_label(old(self)) ==> *final(self) == *old(self),
            old(self).index > 0 ==> r.span.start_byte == old(self).tokens@[old(self).index - 1].span.start_byte,
    {
        let start = self.prev_span();
        let label = self.parse_optional_jump_label();
        let end = match &label {
            Some(l) => l.span,
            None => start,
        };
        Expr { span: merge_span(start, end), kind: ExprKind::Continue { label } }
    }

    /// Reads the rest of a `defer`: an optional `|err|` binding and the body.
    fn parse_defer_expr(&mut self) -> (r: Option<Expr>)
        requires
            old(self).wf(),
        ensures
            r is None ==> Self::failed_visibly(old(self), final(self)),
            Self::progresses(old(self), final(self)),
            r matches Some(e) ==> (old(self).index > 0 ==> e.span.start_byte == old(self).tokens@[old(self).index
                - 1].span.start_byte),
            r matches Some(e) ==> (e.kind matches ExprKind::Defer(d) && (d.error_binding is Some ==> old(self).cur() == Some(TokenKind::Operator(Operator::Pipe)))),
        decreases old(self).rem(), 10nat,
    {
        let start = self.prev_span();
        let error_binding = if self.match_operator(Operator::Pipe) {
            let ident = self.parse_ident();
            self.expect_operator(Operator::Pipe, "expected closing '|' in defer binding");
            ident
        } else {
            None
        };
        let body = match self.parse_expr(0) {
            Some(b) => b,
            None => return None,
        };
        Some(Expr { span: merge_span(start, body.span), kind: ExprKind::Defer(DeferExpr { error_binding, body: Box::new(body) }) })
    }

    /// Reads either an assignment statement, as a block holding it, or an
    /// expression.
    fn parse_stmt_expr_bridge(&mut self) -> (r: Option<Expr>)
        requires
            old(self).wf(),
        ensures
            r is None ==> Self::failed_visibly(old(self), final(self)),
            Self::progresses(old(self), final(self)),
            r is Some ==> old(self).index < final(self).index,
        decreases old(self).rem(), 9nat,
    {
        if self.starts_assignment_stmt() {
            let before = self.index;
            if let Some(stmt) = self.parse_assignment_stmt() {
                let span = stmt_span(&stmt);
                return Some(Expr {
                    span,
                    kind: ExprKind::Block(BlockExpr { label: None, statements: vec![stmt], tail_expr: None }),
                });
            }
            self.index = before;
        }
        self.parse_expr(0)
    }

    /// Reads `target op= value`.
    fn parse_assignment_stmt(&mut self) -> (r: Option<Stmt>)
        requires
            old(self).wf(),
        ensures
            Self::continues(old(self), final(self)),
            r is Some ==> old(self).index < final(self).index,
        decreases old(self).rem(), 8nat,
    {
        let target = match self.parse_postfix_expr() {
            Some(t) => t,
            None => return None,
        };
        let op = match self.current_assign_op() {
            Some(op) => op,
            None => return None,
        };
        self.advance();
        let value = match self.parse_expr(1) {
            Some(v) => v,
            None => return None,
        };
        Some(Stmt::Assignment(Box::new(AssignmentStmt { op, span: merge_span(target.span, value.span), target, value })))
    }

    /// Reads an extern binding's signature: a function type, and an
    /// optional `= "link name"`. Anything but a function type is reported.
    fn parse_extern_binding_signature(&mut self) -> (r: Option<(TypeExpr, Option<String>, SourceSpan)>)
        requires
            old(self).wf(),
        ensures
            r is None ==> Self::failed_visibly(old(self), final(self)),
            Self::progresses(old(self), final(self)),
            old(self).at_delim(Delimiter::LParen) ==> (r matches Some(x) && x.0.kind is Function),
            r matches Some(x) ==> (!(x.0.kind is Function) ==> old(self).diagnostics@.len()
                < final(self).diagnostics@.len()),
            r matches Some(x) ==> (final(self).index > 0 ==> x.2 == final(self).tokens@[final(self).index - 1].span),
        decreases old(self).rem(), 5nat,
    {
        let ty = if self.peek_delimiter(Delimiter::LParen) {
            match self.parse_extern_fn_type_from_params() {
                Some(t) => t,
                None => return None,
            }
        } else {
            match self.parse_type_expr() {
                Some(t) => t,
                None => return None,
            }
        };
        if !matches!(ty.kind, TypeExprKind::Function(_)) {
            self.report_parser_error(
                DiagnosticCode::E3001,
                string_from_str("extern bindings must declare function signatures"),
                ty.span,
                string_from_str("use `extern (args) ret`"),
            );
        }
        let link_name = if self.match_operator(Operator::Equal) {
            self.parse_string_literal()
        } else {
            None
        };
        let end = self.prev_span();
        Some((ty, link_name, end))
    }

    /// Reads `(params) ret` after `extern` as a function type.
    fn parse_extern_fn_type_from_params(&mut self) -> (r: Option<TypeExpr>)
        requires
            old(self).wf(),
        ensures
            r is None ==> Self::failed_visibly(old(self), final(self)),
            Self::continues(old(self), final(self)),
            old(self).at_delim(Delimiter::LParen) ==> old(self).index < final(self).index,
            r matches Some(t) && t.kind is Function && t.span.start_byte == old(self).spec_current_span().start_byte,
        decreases old(self).rem(), if old(self).at_delim(Delimiter::LParen) { 1nat } else { 4nat },
    {
        let start = self.current_span();
        self.expect_delimiter(Delimiter::LParen, "expected '(' after extern");
        let params = self.parse_fn_type_params();
        self.expect_delimiter(Delimiter::RParen, "expected ')' to close extern function params");
        let return_type = self.parse_type_expr_or_void();
        Some(TypeExpr {
            span: merge_span(start, return_type.span),
            kind: TypeExprKind::Function(FnType { params, return_type: Box::new(return_type) }),
        })
    }

    /// Reads a function literal: parameters with optional types and
    /// defaults, an optional return type with error set, then a `comp`
    /// return, an `=> expr` body or a block body.
    #[verifier::rlimit(40)]
    fn parse_fn_expr(&mut self) -> (r: Option<Expr>)
        requires
            old(self).wf(),
        ensures
            r matches Some(e) ==> e.kind is Fn,
            r is None ==> Self::failed_visibly(old(self), final(self)),
            Self::continues(old(self), final(self)),
            old(self).at_delim(Delimiter::LParen) ==> old(self).index < final(self).index,
        decreases old(self).rem(), if old(self).at_delim(Delimiter::LParen) { 1nat } else { 24nat },
    {
        let start = self.current_span();
        self.expect_delimiter(Delimiter::LParen, "expected '(' for function params");
        let mut params: Vec<FnParam> = Vec::new();
        while !self.peek_delimiter(Delimiter::RParen) && !self.is_eof()
            invariant
                self.wf(),
                Self::continues(old(self), self),
                old(self).at_delim(Delimiter::LParen) ==> old(self).index < self.index,
            decreases self.tokens@.len() - self.index,
        {
            let name = match self.parse_ident() {
                Some(n) => n,
                None => return None,
            };
            let (comp, ty) = if self.match_operator(Operator::Colon) {
                let comp = self.match_keyword(Keyword::Comp);
                match self.parse_param_type_expr() {
                    Some(t) => (comp, Some(t)),
                    None => return None,
                }
            } else {
                (false, None)
            };
            let default_value = if self.match_operator(Operator::Equal) {
                self.parse_expr(0)
            } else {
                None
            };
            params.push(FnParam { name, ty, default_value, comp });
            if !self.match_delimiter(Delimiter::Comma) {
                if self.peek_delimiter(Delimiter::RParen) {
                    break;
                }
                if self.peek_kind(TokenKind::Identifier) {
                    let span = self.current_span();
                    self.report_parser_error(
                        DiagnosticCode::E3001,
                        string_from_str("expected ',' between function parameters"),
                        span,
                        string_from_str("insert ',' to separate function parameters"),
                    );
                    continue;
                }
                break;
            }
        }
        self.expect_delimiter(Delimiter::RParen, "expected ')' after function params");
        let mut return_type: Option<TypeExpr> = None;
        if !self.peek_operator(Operator::FatArrow) && !self.peek_delimiter(Delimiter::LBrace)
            && !self.peek_keyword(Keyword::Comp) && !self.peek_keyword(Keyword::Inline)
            && !self.peek_operator(Operator::Bang)
        {
            return_type = self.parse_type_expr();
        }
        if self.match_operator(Operator::Bang) {
            let errors = self.parse_error_list();
            let void_span = self.prev_span();
            let base = match return_type {
                Some(t) => t,
                None => TypeExpr {
                    kind: TypeExprKind::Named(Ident { text: string_from_str("void"), span: void_span }),
                    span: void_span,
                },
            };
            let span = base.span;
            return_type = Some(TypeExpr { span, kind: TypeExprKind::Errorable { ok: Box::new(base), errors } });
        }
        if self.match_keyword(Keyword::Comp) {
            let ret_expr = match self.parse_expr(0) {
                Some(e) => e,
                None => return None,
            };
            if self.match_operator(Operator::FatArrow) {
                if self.peek_delimiter(Delimiter::LBrace) {
                    let arrow_span = self.prev_span();
                    self.report_parser_error(
                        DiagnosticCode::E3001,
                        string_from_str("arrow function body must be a single expression"),
                        arrow_span,
                        string_from_str("remove '=>' and use a block body directly"),
                    );
                }
                let body_expr = match self.parse_expr(0) {
                    Some(e) => e,
                    None => return None,
                };
                return Some(Expr {
                    span: merge_span(start, body_expr.span),
                    kind: ExprKind::Fn(FnExpr { params, return_type, body: FnBody::ArrowExpr(Box::new(body_expr)) }),
                });
            }
            let ret_span = ret_expr.span;
            return Some(Expr {
                span: merge_span(start, ret_span),
                kind: ExprKind::Fn(FnExpr {
                    params,
                    return_type,
                    body: FnBody::ArrowExpr(Box::new(Expr { span: ret_span, kind: ExprKind::Comptime { expr: Box::new(ret_expr) } })),
                }),
            });
        }
        let body = if self.match_operator(Operator::FatArrow) {
            if self.peek_delimiter(Delimiter::LBrace) {
                let arrow_span = self.prev_span();
                self.report_parser_error(
                    DiagnosticCode::E3001,
                    string_from_str("arrow function body must be a single expression"),
                    arrow_span,
                    string_from_str("remove '=>' and use a block body directly"),
                );
                match self.parse_fn_block_body() {
                    Some(b) => b,
                    None => return None,
                }
            } else {
                match self.parse_expr(0) {
                    Some(e) => FnBody::ArrowExpr(Box::new(e)),
                    None => return None,
                }
            }
        } else {
            match self.parse_fn_block_body() {
                Some(b) => b,
                None => return None,
            }
        };
        let end = match &body {
            FnBody::Block(block) => match &block.tail_expr {
                Some(e) => e.span,
                None => start,
            },
            FnBody::ArrowExpr(e) => e.span,
        };
        Some(Expr { span: merge_span(start, end), kind: ExprKind::Fn(FnExpr { params, return_type, body }) })
    }

    /// Reads a function's block body. When the block's `}` is missing, the
    /// body is read again from its `{` with only the braces balanced.
    fn parse_fn_block_body(&mut self) -> (r: Option<FnBody>)
        requires
            old(self).wf(),
        ensures
            r is None ==> Self::failed_visibly(old(self), final(self)),
            Self::continues(old(self), final(self)),
            old(self).at_delim(Delimiter::LBrace) ==> old(self).index < final(self).index,
            r matches Some(FnBody::ArrowExpr(e)) ==> !(e.kind is Block),
        decreases old(self).rem(), 23nat,
    {
        let block_start_index = self.index;
        let (block_expr, closed) = match self.parse_block_expr_with_status() {
            Some(b) => b,
            None => return None,
        };
        let block_expr = if !closed {
            self.index = block_start_index;
            if self.peek_delimiter(Delimiter::LBrace) {
                match self.parse_balanced_block_expr() {
                    Some(b) => b,
                    None => block_expr,
                }
            } else {
                block_expr
            }
        } else {
            block_expr
        };
        let Expr { span, kind } = block_expr;
        Some(match kind {
            ExprKind::Block(block) => FnBody::Block(block),
            other => FnBody::ArrowExpr(Box::new(Expr { span, kind: other })),
        })
    }

    /// Reads a match pattern: `_`, a type, `.Variant(bindings)`, a literal or
    /// a literal range, `Root.Variant(bindings)`, or a name to bind.
    fn parse_pattern(&mut self) -> (r: Option<Pattern>)
        requires
            old(self).wf(),
        ensures
            r is None ==> Self::failed_visibly(old(self), final(self)),
            Self::progresses(old(self), final(self)),
            r is Some ==> old(self).index < final(self).index,
        decreases old(self).rem(), 2nat,
    {
        if self.index >= self.tokens.len() {
            return None;
        }
        let kind = self.tokens[self.index].kind;
        let span = self.tokens[self.index].span;
        if kind == TokenKind::Identifier && string_eq_str(&self.tokens[self.index].lexeme, "_") {
            self.advance();
            return Some(Pattern { span, kind: PatternKind::Wildcard });
        }
        // `[]T`, `*T` and `?T` are type patterns, as in `comp match $typeof(v) { []u8: ... }`.
        if kind == TokenKind::Delimiter(Delimiter::LBracket) || kind == TokenKind::Operator(Operator::Star)
            || kind == TokenKind::Operator(Operator::Question)
        {
            if let Some(ty) = self.parse_type_expr() {
                let end = self.prev_span();
                return Some(Pattern { span: merge_span(span, end), kind: PatternKind::TypeLiteral(ty) });
            }
        }
        if kind == TokenKind::Operator(Operator::Dot) {
            self.advance();
            let variant = match self.parse_ident() {
                Some(v) => v,
                None => return None,
            };
            let bindings = if self.match_delimiter(Delimiter::LParen) {
                self.parse_pattern_binding_list()
            } else {
                Vec::new()
            };
            let end = self.prev_span();
            return Some(Pattern {
                span: merge_span(span, end),
                kind: PatternKind::EnumVariant { root: None, variant, bindings },
            });
        }
        let is_literal = match kind {
            TokenKind::IntLiteral | TokenKind::FloatLiteral | TokenKind::StringLiteral | TokenKind::CharLiteral
            | TokenKind::BoolLiteral(_) | TokenKind::NullLiteral => true,
            _ => false,
        };
        if is_literal && self.index < self.tokens.len() {
            let literal = pattern_literal_from_token(&self.tokens[self.index]);
            self.advance();
            let mut pattern = Pattern { span, kind: PatternKind::Literal(literal) };
            if self.match_operator(Operator::DotDot) || self.match_operator(Operator::DotDotEq) {
                let inclusive = matches!(self.prev_kind(), Some(TokenKind::Operator(Operator::DotDotEq)));
                let end = match self.parse_pattern() {
                    Some(e) => e,
                    None => return None,
                };
                let range_span = merge_span(pattern.span, end.span);
                pattern = Pattern {
                    span: range_span,
                    kind: PatternKind::Range { start: Box::new(pattern), end: Box::new(end), inclusive },
                };
            }
            return Some(pattern);
        }
        let ident = match self.parse_ident() {
            Some(i) => i,
            None => return None,
        };
        if self.match_operator(Operator::Dot) {
            let variant = match self.parse_ident() {
                Some(v) => v,
                None => return None,
            };
            let bindings = if self.match_delimiter(Delimiter::LParen) {
                self.parse_pattern_binding_list()
            } else {
                Vec::new()
            };
            let end = self.prev_span();
            let ident_span = ident.span;
            return Some(Pattern {
                span: merge_span(ident_span, end),
                kind: PatternKind::EnumVariant { root: Some(ident), variant, bindings },
            });
        }
        let ident_span = ident.span;
        Some(Pattern { span: ident_span, kind: PatternKind::IdentBind(ident) })
    }

    /// Reads a parameter's type: `*[mut] T`, `[][mut] T`, or a type.
    fn parse_param_type_expr(&mut self) -> (r: Option<TypeExpr>)
        requires
            old(self).wf(),
        ensures
            r is None ==> Self::failed_visibly(old(self), final(self)),
            Self::progresses(old(self), final(self)),
            r is Some ==> old(self).index < final(self).index,
        decreases old(self).rem(), 2nat,
    {
        let start = self.current_span();
        if self.match_operator(Operator::Star) {
            let mutable = self.match_keyword(Keyword::Mut);
            let inner = match self.parse_type_expr() {
                Some(t) => t,
                None => return None,
            };
            return Some(TypeExpr {
                span: merge_span(start, inner.span),
                kind: TypeExprKind::Pointer { mutable, inner: Box::new(inner) },
            });
        }
        if self.peek_delimiter(Delimiter::LBracket) && self.peek_next_kind(TokenKind::Delimiter(Delimiter::RBracket)) {
            self.advance();
            self.advance();
            let mutable = self.match_keyword(Keyword::Mut);
            let element = match self.parse_type_expr() {
                Some(t) => t,
                None => return None,
            };
            return Some(TypeExpr {
                span: merge_span(start, element.span),
                kind: TypeExprKind::Slice { mutable, element: Box::new(element) },
            });
        }
        self.parse_type_expr()
    }

    /// Reads a type: `comp`/`inline` prefixes, optionals, pointers, slices,
    /// arrays, function types, struct and enum types, and (possibly
    /// qualified, applied, error-union) named types.
    #[verifier::spinoff_prover]
    fn parse_type_expr(&mut self) -> (r: Option<TypeExpr>)
        requires
            old(self).wf(),
        ensures
            r is None ==> Self::failed_visibly(old(self), final(self)),
            Self::progresses(old(self), final(self)),
            r is Some ==> old(self).index < final(self).index,
        decreases old(self).rem(), 1nat,
    {
        let start = self.current_span();
        if self.match_keyword(Keyword::Comp) || self.match_keyword(Keyword::Inline) {
            let mut inner = match self.parse_type_expr() {
                Some(t) => t,
                None => return None,
            };
            inner.span = merge_span(start, inner.span);
            return Some(inner);
        }
        if self.match_operator(Operator::Question) {
            let inner = match self.parse_type_expr() {
                Some(t) => t,
                None => return None,
            };
            return Some(TypeExpr { span: merge_span(start, inner.span), kind: TypeExprKind::Optional { inner: Box::new(inner) } });
        }
        if self.match_operator(Operator::Star) {
            let mutable = self.match_keyword(Keyword::Mut);
            let inner = match self.parse_type_expr() {
                Some(t) => t,
                None => return None,
            };
            return Some(TypeExpr {
                span: merge_span(start, inner.span),
                kind: TypeExprKind::Pointer { mutable, inner: Box::new(inner) },
            });
        }
        if self.match_delimiter(Delimiter::LBracket) {
            if self.match_delimiter(Delimiter::RBracket) {
                let mutable = self.match_keyword(Keyword::Mut);
                let element = match self.parse_type_expr() {
                    Some(t) => t,
                    None => return None,
                };
                let span = merge_span(start, element.span);
                return Some(TypeExpr { span, kind: TypeExprKind::Slice { mutable, element: Box::new(element) } });
            }
            let len = match self.parse_expr(0) {
                Some(e) => e,
                None => return None,
            };
            self.expect_delimiter(Delimiter::RBracket, "expected ']' in array type");
            let element = match self.parse_type_expr() {
                Some(t) => t,
                None => return None,
            };
            return Some(TypeExpr {
                span: merge_span(start, element.span),
                kind: TypeExprKind::Array { len: Some(Box::new(len)), element: Box::new(element) },
            });
        }
        if self.match_delimiter(Delimiter::LParen) {
            let params = self.parse_fn_type_params();
            self.expect_delimiter(Delimiter::RParen, "expected ')' to close function type params");
            let return_type = self.parse_type_expr_or_void();
            return Some(TypeExpr {
                span: merge_span(start, return_type.span),
                kind: TypeExprKind::Function(FnType { params, return_type: Box::new(return_type) }),
            });
        }
        if self.match_keyword(Keyword::Packed) {
            if self.match_keyword(Keyword::Struct) {
                return self.parse_struct_type(start, true);
            }
            let span = self.current_span();
            self.report_parser_error(
                DiagnosticCode::E3001,
                string_from_str("expected 'struct' after 'packed'"),
                span,
                string_from_str("use `packed struct { ... }`"),
            );
            return None;
        }
        if self.match_keyword(Keyword::Struct) {
            return self.parse_struct_type(start, false);
        }
        if self.match_keyword(Keyword::Enum) {
            return self.parse_enum_type(start);
        }
        let mut name = match self.parse_ident() {
            Some(n) => n,
            None => return None,
        };
        // Qualified names such as `io.Writer`.
        while self.peek_operator(Operator::Dot)
            invariant
                self.wf(),
                Self::continues(old(self), self),
                old(self).index < self.index,
            decreases self.tokens@.len() - self.index,
        {
            if self.kind_after(self.index, 1) == Some(TokenKind::Identifier) {
                self.advance();
                let field = match self.parse_ident() {
                    Some(f) => f,
                    None => return None,
                };
                let span = merge_span(name.span, field.span);
                let mut text = name.text;
                crate::text::string_push(&mut text, '.');
                push_string(&mut text, &field.text);
                name = Ident { text, span };
            } else {
                break;
            }
        }
        if string_eq_str(&name.text, "fn") && self.peek_delimiter(Delimiter::LParen) {
            return self.parse_removed_fn_keyword_type(name);
        }
        let mut ty = if self.match_delimiter(Delimiter::LParen) {
            let args = self.parse_type_args();
            let end = self.prev_span();
            TypeExpr { span: merge_span(name.span, end), kind: TypeExprKind::Applied { callee: name, args } }
        } else {
            let name_span = name.span;
            TypeExpr { span: name_span, kind: TypeExprKind::Named(name) }
        };
        if self.match_operator(Operator::Bang) {
            let errors = self.parse_error_list();
            let span = merge_span(ty.span, self.prev_span());
            ty = TypeExpr { span, kind: TypeExprKind::Errorable { ok: Box::new(ty), errors } };
        }
        Some(ty)
    }

    /// Reads the removed `fn(...)` type form, reporting it, as a function type.
    fn parse_removed_fn_keyword_type(&mut self, name: Ident) -> (r: Option<TypeExpr>)
        requires
            old(self).wf(),
        ensures
            r is None ==> Self::failed_visibly(old(self), final(self)),
            Self::continues(old(self), final(self)),
            old(self).at_delim(Delimiter::LParen) ==> old(self).index < final(self).index,
            r matches Some(t) && t.kind is Function && t.span.start_byte == name.span.start_byte,
            old(self).diagnostics@.len() < final(self).diagnostics@.len(),
            final(self).diagnostics@[old(self).diagnostics@.len() as int].code == DiagnosticCode::E3001,
            final(self).diagnostics@[old(self).diagnostics@.len() as int].message@
                == "`fn(...)` type syntax has been removed"@,
        decreases old(self).rem(), if old(self).at_delim(Delimiter::LParen) { 1nat } else { 4nat },
    {
        self.report_parser_error(
            DiagnosticCode::E3001,
            string_from_str("`fn(...)` type syntax has been removed"),
            name.span,
            string_from_str("use `(param: Type, ...) ReturnType` instead"),
        );
        self.expect_delimiter(Delimiter::LParen, "expected '(' after `fn`");
        let params = self.parse_fn_type_params();
        self.expect_delimiter(Delimiter::RParen, "expected ')' to close function type params");
        let return_type = self.parse_type_expr_or_void();
        Some(TypeExpr {
            span: merge_span(name.span, return_type.span),
            kind: TypeExprKind::Function(FnType { params, return_type: Box::new(return_type) }),
        })
    }

    /// Reads a return type, or `void` at the previous token when no type follows.
    fn parse_type_expr_or_void(&mut self) -> (r: TypeExpr)
        requires
            old(self).wf(),
        ensures
            Self::continues(old(self), final(self)),
            Self::at_type_start(old(self)) ==> old(self).index < final(self).index,
            !Self::at_type_start(old(self)) ==> (final(self).index == old(self).index && final(self).diagnostics
                == old(self).diagnostics && (r.kind matches TypeExprKind::Named(id) && id.text@ == "void"@)
                && (old(self).index > 0 ==> r.span == old(self).tokens@[old(self).index - 1].span)),
        decreases old(self).rem(), 2nat,
    {
        if self.starts_type_expr() {
            match self.parse_type_expr() {
                Some(t) => t,
                None => {
                    let span = self.prev_span();
                    TypeExpr { span, kind: TypeExprKind::Named(Ident { text: string_from_str("void"), span }) }
                },
            }
        } else {
            let span = self.prev_span();
            TypeExpr { span, kind: TypeExprKind::Named(Ident { text: string_from_str("void"), span }) }
        }
    }

    /// Reads the parameters of a function type: `name: type` or bare types,
    /// separated by commas.
    fn parse_fn_type_params(&mut self) -> (r: Vec<FnTypeParam>)
        requires
            old(self).wf(),
        ensures
            Self::continues(old(self), final(self)),
            !old(self).at_delim(Delimiter::RParen) ==> Self::progresses(old(self), final(self)),
            old(self).at_delim(Delimiter::RParen) ==> (r.len() == 0 && final(self).index == old(self).index
                && final(self).diagnostics == old(self).diagnostics),
        decreases old(self).rem(), 3nat,
    {
        let mut params: Vec<FnTypeParam> = Vec::new();
        while !self.peek_delimiter(Delimiter::RParen) && !self.is_eof()
            invariant
                self.wf(),
                Self::continues(old(self), self),
                old(self).at_delim(Delimiter::RParen) ==> (self.index == old(self).index && params.len() == 0
                    && self.diagnostics == old(self).diagnostics),
            ensures
                self.wf(),
                Self::continues(old(self), self),
                old(self).at_delim(Delimiter::RParen) ==> (self.index == old(self).index && params.len() == 0
                    && self.diagnostics == old(self).diagnostics),
                old(self).index < self.index || self.at_delim(Delimiter::RParen) || self.index >= self.tokens@.len(),
            decreases self.tokens@.len() - self.index,
        {
            let (name, ty) = if self.peek_kind(TokenKind::Identifier)
                && self.peek_next_kind(TokenKind::Operator(Operator::Colon))
            {
                let name = self.parse_ident();
                self.expect_operator(Operator::Colon, "expected ':' in function type param");
                match self.parse_param_type_expr() {
                    Some(ty) => (name, ty),
                    None => break,
                }
            } else {
                match self.parse_param_type_expr() {
                    Some(ty) => (None, ty),
                    None => break,
                }
            };
            params.push(FnTypeParam { name, ty });
            if !self.match_delimiter(Delimiter::Comma) {
                break;
            }
        }
        params
    }

    /// Reads the arguments of an applied type up to the closing `)`.
    fn parse_type_args(&mut self) -> (r: Vec<TypeExpr>)
        requires
            old(self).wf(),
        ensures
            Self::progresses(old(self), final(self)),
            old(self).at_delim(Delimiter::RParen) ==> (r.len() == 0 && final(self).index == old(self).index + 1),
        decreases old(self).rem(), 2nat,
    {
        let mut args: Vec<TypeExpr> = Vec::new();
        while !self.peek_delimiter(Delimiter::RParen) && !self.is_eof()
            invariant
                self.wf(),
                Self::continues(old(self), self),
                old(self).at_delim(Delimiter::RParen) ==> (self.index == old(self).index && args.len() == 0
                    && self.diagnostics == old(self).diagnostics),
            ensures
                self.wf(),
                Self::continues(old(self), self),
                old(self).at_delim(Delimiter::RParen) ==> (self.index == old(self).index && args.len() == 0
                    && self.diagnostics == old(self).diagnostics),
                old(self).index < self.index || self.at_delim(Delimiter::RParen) || self.index >= self.tokens@.len(),
            decreases self.tokens@.len() - self.index,
        {
            match self.parse_type_expr() {
                Some(arg) => {
                    args.push(arg);
                },
                None => {
                    break;
                },
            }
            if !self.match_delimiter(Delimiter::Comma) {
                break;
            }
        }
        self.expect_delimiter(Delimiter::RParen, "expected ')' to close type arguments");
        args
    }

    /// Reads the body of a struct type: `name: type [= default]` fields.
    fn parse_struct_type(&mut self, start: SourceSpan, packed: bool) -> (r: Option<TypeExpr>)
        requires
            old(self).wf(),
        ensures
            r is None ==> Self::failed_visibly(old(self), final(self)),
            Self::continues(old(self), final(self)),
            old(self).at_delim(Delimiter::LBrace) ==> old(self).index < final(self).index,
            r matches Some(t) ==> t.span.start_byte == start.start_byte && (t.kind matches TypeExprKind::Struct(st)
                && st.packed == packed),
        decreases old(self).rem(), 1nat,
    {
        self.expect_delimiter(Delimiter::LBrace, "expected '{' after struct");
        let ghost after_open = self.index;
        let mut fields: Vec<StructFieldType> = Vec::new();
        while !self.peek_delimiter(Delimiter::RBrace) && !self.is_eof()
            invariant
                self.wf(),
                Self::continues(old(self), self),
                after_open <= self.index,
                old(self).at_delim(Delimiter::LBrace) ==> old(self).index < after_open,
            decreases self.tokens@.len() - self.index,
        {
            let ghost iteration_start = self.index;
            // Doc comments inside a struct body are skipped.
            while self.peek_kind(TokenKind::DocComment)
                invariant
                    self.wf(),
                    Self::continues(old(self), self),
                    iteration_start <= self.index,
                decreases self.tokens@.len() - self.index,
            {
                self.advance();
            }
            if self.peek_delimiter(Delimiter::RBrace) || self.is_eof() {
                break;
            }
            let name = match self.parse_ident() {
                Some(n) => n,
                None => return None,
            };
            if self.match_operator(Operator::Colon) {
                let ty = match self.parse_type_expr() {
                    Some(t) => t,
                    None => return None,
                };
                let default_value = if self.match_operator(Operator::Equal) {
                    match self.parse_expr(0) {
                        Some(e) => Some(e),
                        None => return None,
                    }
                } else {
                    None
                };
                fields.push(StructFieldType { name, ty, default_value });
            }
            self.match_delimiter(Delimiter::Comma);
            if self.peek_delimiter(Delimiter::RBrace) {
                break;
            }
            if !self.peek_kind(TokenKind::Identifier) {
                let _ = self.parse_expr(0);
                self.match_delimiter(Delimiter::Comma);
            }
        }
        let end = self.current_span();
        self.expect_delimiter(Delimiter::RBrace, "expected '}' to close struct type");
        Some(TypeExpr { span: merge_span(start, end), kind: TypeExprKind::Struct(StructType { packed, fields }) })
    }

    /// Reads the body of an enum type: an optional `(uN)` tag type and the
    /// variants, each with an optional payload type.
    fn parse_enum_type(&mut self, start: SourceSpan) -> (r: Option<TypeExpr>)
        requires
            old(self).wf(),
        ensures
            r is None ==> Self::failed_visibly(old(self), final(self)),
            Self::continues(old(self), final(self)),
            old(self).at_delim(Delimiter::LBrace) || old(self).at_delim(Delimiter::LParen) ==> old(self).index
                < final(self).index,
            r matches Some(t) ==> t.span.start_byte == start.start_byte && (t.kind matches TypeExprKind::Enum(en)
                && (en.repr is Some <==> old(self).at_delim(Delimiter::LParen)) && en.members.len() == 0),
        decreases old(self).rem(), 1nat,
    {
        let repr = if self.match_delimiter(Delimiter::LParen) {
            let repr = match self.parse_type_expr() {
                Some(t) => t,
                None => return None,
            };
            self.expect_delimiter(Delimiter::RParen, "expected ')' after enum representation type");
            let unsigned = match &repr.kind {
                TypeExprKind::Named(name) => string_eq_str(&name.text, "u8") || string_eq_str(&name.text, "u16")
                    || string_eq_str(&name.text, "u32") || string_eq_str(&name.text, "u64")
                    || string_eq_str(&name.text, "usize"),
                _ => false,
            };
            if !unsigned {
                self.report_parser_error(
                    DiagnosticCode::E3001,
                    string_from_str("enum representation type must be unsigned integer"),
                    repr.span,
                    string_from_str("use one of `u8`, `u16`, `u32`, `u64`, or `usize`"),
                );
            }
            Some(Box::new(repr))
        } else {
            None
        };
        self.expect_delimiter(Delimiter::LBrace, "expected '{' after enum");
        let mut variants: Vec<EnumVariantType> = Vec::new();
        while !self.peek_delimiter(Delimiter::RBrace) && !self.is_eof()
            invariant
                self.wf(),
                Self::continues(old(self), self),
            decreases self.tokens@.len() - self.index,
        {
            let name = match self.parse_ident() {
                Some(n) => n,
                None => return None,
            };
            if self.match_operator(Operator::Colon) {
                if self.match_operator(Operator::Equal) {
                    self.report_parser_error(
                        DiagnosticCode::E3001,
                        string_from_str("enum body members are not supported"),
                        name.span,
                        string_from_str("keep only enum variants inside `enum { ... }`"),
                    );
                    let _ = self.parse_expr(0);
                    self.match_delimiter(Delimiter::Comma);
                    continue;
                }
                let payload = self.parse_type_expr();
                variants.push(EnumVariantType { name, payload });
            } else {
                variants.push(EnumVariantType { name, payload: None });
            }
            self.match_delimiter(Delimiter::Comma);
        }
        let end = self.current_span();
        self.expect_delimiter(Delimiter::RBrace, "expected '}' to close enum type");
        Some(TypeExpr {
            span: merge_span(start, end),
            kind: TypeExprKind::Enum(EnumType { repr, variants, members: Vec::new() }),
        })
    }

    /// Reads the arguments of a call, after its `(`.
    fn finish_call(&mut self, callee: Expr) -> (r: Option<Expr>)
        requires
            old(self).wf(),
        ensures
            r is None ==> Self::failed_visibly(old(self), final(self)),
            Self::progresses(old(self), final(self)),
            r matches Some(e) && e.kind matches ExprKind::Call(c) && *c.callee == callee
                && e.span.start_byte == callee.span.start_byte,
            old(self).at_delim(Delimiter::RParen) ==> final(self).index == old(self).index + 1,
        decreases old(self).rem(), 9nat,
    {
        let args = self.parse_call_args(Some(&callee));
        let end = self.prev_span();
        Some(Expr { span: merge_span(callee.span, end), kind: ExprKind::Call(CallExpr { callee: Box::new(callee), args }) })
    }

    /// Reads call arguments up to the closing `)`: named `name: value`
    /// arguments, type arguments where a builtin takes a type, and values.
    fn parse_call_args(&mut self, callee: Option<&Expr>) -> (r: Vec<CallArg>)
        requires
            old(self).wf(),
        ensures
            Self::progresses(old(self), final(self)),
            old(self).at_delim(Delimiter::RParen) ==> (r.len() == 0 && final(self).index == old(self).index + 1),
        decreases old(self).rem(), 8nat,
    {
        let mut args: Vec<CallArg> = Vec::new();
        while !self.peek_delimiter(Delimiter::RParen) && !self.is_eof()
            invariant
                self.wf(),
                Self::continues(old(self), self),
                old(self).at_delim(Delimiter::RParen) ==> (self.index == old(self).index && args.len() == 0
                    && self.diagnostics == old(self).diagnostics),
            ensures
                self.wf(),
                Self::continues(old(self), self),
                old(self).at_delim(Delimiter::RParen) ==> (self.index == old(self).index && args.len() == 0
                    && self.diagnostics == old(self).diagnostics),
                old(self).index < self.index || self.at_delim(Delimiter::RParen) || self.index >= self.tokens@.len(),
            decreases self.tokens@.len() - self.index,
        {
            if self.peek_kind(TokenKind::Identifier) && self.peek_next_kind(TokenKind::Operator(Operator::Colon)) {
                let name = self.parse_ident();
                self.expect_operator(Operator::Colon, "expected ':' in named argument");
                let value = match self.parse_expr(0) {
                    Some(v) => v,
                    None => break,
                };
                args.push(CallArg { name, value });
            } else if self.should_parse_builtin_type_arg(callee, args.len()) {
                if let Some(ty) = self.parse_type_expr() {
                    let span = ty.span;
                    args.push(CallArg { name: None, value: Expr { span, kind: ExprKind::TypeLiteral(ty) } });
                } else if let Some(value) = self.parse_expr(0) {
                    args.push(CallArg { name: None, value });
                } else {
                    break;
                }
            } else if let Some(value) = self.parse_expr(0) {
                args.push(CallArg { name: None, value });
            } else {
                break;
            }
            if !self.match_delimiter(Delimiter::Comma) {
                if self.peek_delimiter(Delimiter::RParen) {
                    break;
                }
                if self.starts_expr() {
                    let span = self.current_span();
                    self.report_parser_error(
                        DiagnosticCode::E3001,
                        string_from_str("expected ',' between call arguments"),
                        span,
                        string_from_str("insert ',' to separate call arguments"),
                    );
                    continue;
                }
                break;
            }
        }
        self.expect_delimiter(Delimiter::RParen, "expected ')' to close call arguments");
        args
    }

    /// Reads call arguments and keeps their values.
    fn parse_arg_values(&mut self) -> (r: Vec<Expr>)
        requires
            old(self).wf(),
        ensures
            Self::progresses(old(self), final(self)),
            old(self).at_delim(Delimiter::RParen) ==> (r.len() == 0 && final(self).index == old(self).index + 1),
        decreases old(self).rem(), 9nat,
    {
        let mut args = self.parse_call_args(None);
        let mut values: Vec<Expr> = Vec::new();
        let ghost total = args.len();
        while args.len() > 0
            invariant
                values.len() + args.len() == total,
            decreases args.len(),
        {
            let arg = args.remove(0);
            values.push(arg.value);
        }
        values
    }

    /// Reads `[index]`, `[start..end]`, `[..end]` or `[start..]` after a base.
    fn finish_index_or_slice(&mut self, base: Expr) -> (r: Option<Expr>)
        requires
            old(self).wf(),
        ensures
            r is None ==> Self::failed_visibly(old(self), final(self)),
            Self::progresses(old(self), final(self)),
            r matches Some(e) ==> e.span.start_byte == base.span.start_byte && ((e.kind matches ExprKind::Index {
                base: b,
                ..
            } && *b == base) || (e.kind matches ExprKind::Slice(sl) && *sl.base == base)),
            Self::at_range_op(old(self)) ==> (r matches Some(e) ==> (e.kind matches ExprKind::Slice(sl) && sl.start
                is None && sl.inclusive == (old(self).cur() == Some(TokenKind::Operator(Operator::DotDotEq))))),
        decreases old(self).rem(), 8nat,
    {
        if self.match_operator(Operator::DotDot) || self.match_operator(Operator::DotDotEq) {
            let inclusive = matches!(self.prev_kind(), Some(TokenKind::Operator(Operator::DotDotEq)));
            let end = if self.peek_delimiter(Delimiter::RBracket) {
                None
            } else {
                match self.parse_expr(11) {
                    Some(e) => Some(Box::new(e)),
                    None => return None,
                }
            };
            self.expect_delimiter(Delimiter::RBracket, "expected ']' after slice expression");
            let end_span = match &end {
                Some(e) => e.span,
                None => base.span,
            };
            return Some(Expr {
                span: merge_span(base.span, end_span),
                kind: ExprKind::Slice(SliceExpr { base: Box::new(base), start: None, end, inclusive }),
            });
        }
        let first = match self.parse_expr(11) {
            Some(e) => e,
            None => return None,
        };
        if self.match_operator(Operator::DotDot) || self.match_operator(Operator::DotDotEq) {
            let inclusive = matches!(self.prev_kind(), Some(TokenKind::Operator(Operator::DotDotEq)));
            let end = if self.peek_delimiter(Delimiter::RBracket) {
                None
            } else {
                match self.parse_expr(11) {
                    Some(e) => Some(Box::new(e)),
                    None => return None,
                }
            };
            self.expect_delimiter(Delimiter::RBracket, "expected ']' after slice expression");
            let end_span = match &end {
                Some(e) => e.span,
                None => first.span,
            };
            return Some(Expr {
                span: merge_span(base.span, end_span),
                kind: ExprKind::Slice(SliceExpr { base: Box::new(base), start: Some(Box::new(first)), end, inclusive }),
            });
        }
        self.expect_delimiter(Delimiter::RBracket, "expected ']' after index expression");
        let span = merge_span(base.span, first.span);
        Some(Expr { span, kind: ExprKind::Index { base: Box::new(base), index: Box::new(first) } })
    }

    /// Reads a struct literal after its `{`; without a type name and
    /// without any `name: value` field it is a tuple literal.
    fn finish_struct_literal(&mut self, root_type: Option<Ident>, start: SourceSpan) -> (r: Option<Expr>)
        requires
            old(self).wf(),
        ensures
            r is None ==> Self::failed_visibly(old(self), final(self)),
            Self::progresses(old(self), final(self)),
            r matches Some(e) ==> e.span.start_byte == start.start_byte,
            r matches Some(e) ==> (if root_type is None && !old(self).inferred_fields_from(old(self).index as int, false) {
                e.kind is TupleLiteral
            } else {
                e.kind matches ExprKind::StructLiteral(sl) && sl.root_type == root_type
            }),
            old(self).at_delim(Delimiter::RBrace) ==> (r matches Some(e) && final(self).index == old(self).index + 1
                && final(self).diagnostics == old(self).diagnostics && ((e.kind matches ExprKind::TupleLiteral(v)
                && v.len() == 0) || (e.kind matches ExprKind::StructLiteral(sl) && sl.fields.len() == 0))),
        decreases old(self).rem(), 9nat,
    {
        let anonymous_struct = root_type.is_none() && self.looks_like_inferred_struct_field_list();
        if root_type.is_none() && !anonymous_struct {
            let mut elements: Vec<Expr> = Vec::new();
            while !self.peek_delimiter(Delimiter::RBrace) && !self.is_eof()
                invariant
                    self.wf(),
                    Self::continues(old(self), self),
                    old(self).at_delim(Delimiter::RBrace) ==> (self.index == old(self).index && elements.len() == 0
                        && self.diagnostics == old(self).diagnostics),
                ensures
                    self.wf(),
                    Self::continues(old(self), self),
                    old(self).at_delim(Delimiter::RBrace) ==> (self.index == old(self).index && elements.len() == 0
                        && self.diagnostics == old(self).diagnostics),
                    old(self).index < self.index || self.at_delim(Delimiter::RBrace) || self.index >= self.tokens@.len(),
                decreases self.tokens@.len() - self.index,
            {
                let element = match self.parse_expr(0) {
                    Some(e) => e,
                    None => return None,
                };
                elements.push(element);
                if !self.match_delimiter(Delimiter::Comma) {
                    break;
                }
            }
            let end = self.current_span();
            self.expect_delimiter(Delimiter::RBrace, "expected '}' after tuple literal");
            return Some(Expr { span: merge_span(start, end), kind: ExprKind::TupleLiteral(elements) });
        }
        let fields = match self.parse_struct_literal_fields(root_type.is_some() || anonymous_struct) {
            Some(f) => f,
            None => return None,
        };
        let end = self.current_span();
        self.expect_delimiter(Delimiter::RBrace, "expected '}' after struct literal");
        Some(Expr { span: merge_span(start, end), kind: ExprKind::StructLiteral(StructLiteralExpr { root_type, fields }) })
    }

    /// Reads struct literal fields `name: value`, or a bare `name` standing
    /// for `name: name` where shorthand is allowed.
    fn parse_struct_literal_fields(&mut self, allow_shorthand: bool) -> (r: Option<Vec<StructLiteralField>>)
        requires
            old(self).wf(),
        ensures
            r is None ==> Self::failed_visibly(old(self), final(self)),
            Self::continues(old(self), final(self)),
            !old(self).at_delim(Delimiter::RBrace) ==> Self::progresses(old(self), final(self)),
            old(self).at_delim(Delimiter::RBrace) ==> (r matches Some(fs) && fs.len() == 0 && final(self).index
                == old(self).index && final(self).diagnostics == old(self).diagnostics),
        decreases old(self).rem(), 1nat,
    {
        let mut fields: Vec<StructLiteralField> = Vec::new();
        while !self.peek_delimiter(Delimiter::RBrace) && !self.is_eof()
            invariant
                self.wf(),
                Self::continues(old(self), self),
                old(self).at_delim(Delimiter::RBrace) ==> (self.index == old(self).index && fields.len() == 0
                    && self.diagnostics == old(self).diagnostics),
            ensures
                self.wf(),
                Self::continues(old(self), self),
                old(self).at_delim(Delimiter::RBrace) ==> (self.index == old(self).index && fields.len() == 0
                    && self.diagnostics == old(self).diagnostics),
                old(self).index < self.index || self.at_delim(Delimiter::RBrace) || self.index >= self.tokens@.len(),
            decreases self.tokens@.len() - self.index,
        {
            let name = match self.parse_ident() {
                Some(n) => n,
                None => return None,
            };
            let value = if self.match_operator(Operator::Colon) {
                match self.parse_expr(0) {
                    Some(v) => v,
                    None => return None,
                }
            } else if allow_shorthand && (self.peek_delimiter(Delimiter::Comma) || self.peek_delimiter(Delimiter::RBrace)) {
                Expr { span: name.span, kind: ExprKind::Ident(Ident { text: name.text.clone(), span: name.span }) }
            } else {
                self.expect_operator(Operator::Colon, "expected ':' in struct literal field");
                match self.parse_expr(0) {
                    Some(v) => v,
                    None => return None,
                }
            };
            fields.push(StructLiteralField { name, value });
            if self.match_delimiter(Delimiter::Comma) {
                continue;
            }
            if self.peek_delimiter(Delimiter::RBrace) {
                break;
            }
            if self.peek_kind(TokenKind::Identifier) {
                let span = self.current_span();
                self.report_parser_error(
                    DiagnosticCode::E3001,
                    string_from_str("expected ',' between struct literal fields"),
                    span,
                    string_from_str("insert ',' to separate struct fields"),
                );
                continue;
            }
            break;
        }
        Some(fields)
    }

    /// Reads a declaration: doc comments, `pub`, `mut`, then
    /// `name := value`, `name: Type = value`, `name = value`,
    /// `Owner.member := value`, a destructuring, or (where allowed) an
    /// extern binding.
    fn parse_item(&mut self, allow_extern_bindings: bool) -> (r: Option<Item>)
        requires
            old(self).wf(),
        ensures
            r is None ==> Self::failed_visibly(old(self), final(self)) || Self::bare_name(
                old(self),
                Self::item_name_index(old(self)),
                Self::item_is_mut(old(self)),
            ),
            Self::progresses(old(self), final(self)),
            r matches Some(it) ==> Self::decl_from(old(self), it),
            r matches Some(it) ==> (it matches Item::Declaration(d) && d.docs@.len() == old(self).skip_docs(
                old(self).index as int,
            ) - old(self).index && (d.visibility == Visibility::Public) == Self::item_is_pub(old(self))
                && d.modifiers.mutable == Self::item_is_mut(old(self))),
            old(self).kind_at(Self::item_name_index(old(self))) == Some(TokenKind::Keyword(Keyword::Extern)) ==> (r is None
                && old(self).diagnostics@.len() < final(self).diagnostics@.len()
                && final(self).diagnostics@[old(self).diagnostics@.len() as int].message@
                == "extern declarations must use binding syntax"@),
            r matches Some(it) ==> (it matches Item::Declaration(d) && ((d.target is Destructure)
                == old(self).spec_destructure_from(Self::item_name_index(old(self))))),
            r matches Some(it) ==> (it matches Item::Declaration(d) && (d.target is Name && d.value is Expr ==> ((
                d.annotation is Some) == (old(self).kind_at(Self::item_name_index(old(self)) + 1) == Some(
                TokenKind::Operator(Operator::Colon)) && old(self).kind_at(Self::item_name_index(old(self)) + 2) != Some(
                TokenKind::Operator(Operator::Equal)))))),
            r matches Some(it) ==> (it matches Item::Declaration(d) && (d.target matches DeclTarget::Name(n)
                ==> n.text@ == old(self).tokens@[Self::item_name_index(old(self))].lexeme@)),
            r matches Some(it) ==> (it matches Item::Declaration(d) && (d.target matches DeclTarget::Associated {
                owner,
                ..
            } ==> owner.text@ == old(self).tokens@[Self::item_name_index(old(self))].lexeme@ && old(self).kind_at(
                Self::item_name_index(old(self)) + 1,
            ) == Some(TokenKind::Operator(Operator::Dot)))),
        decreases old(self).rem(), 3nat,
    {
        let docs = self.parse_doc_comments();
        let visibility = if self.match_keyword(Keyword::Pub) { Visibility::Public } else { Visibility::Private };
        let modifiers = self.parse_declaration_modifiers();
        let ghost name_index = self.index as int;
        proof {
            assert(name_index == Self::item_name_index(old(self)));
            Self::lemma_lookahead_same_tokens(old(self), self, name_index + 1);
        }
        self.parse_item_body(docs, visibility, modifiers, allow_extern_bindings)
    }

    /// Reads a declaration after its doc comments, `pub` and `mut`: from its
    /// name, destructuring or `extern` on.
    #[verifier::rlimit(100)]
    #[verifier::spinoff_prover]
    fn parse_item_body(
        &mut self,
        docs: Vec<DocComment>,
        visibility: Visibility,
        modifiers: DeclModifiers,
        allow_extern_bindings: bool,
    ) -> (r: Option<Item>)
        requires
            old(self).wf(),
        ensures
            r is None ==> Self::failed_visibly(old(self), final(self)) || Self::bare_name(old(self), old(self).index as int, modifiers.mutable),
            Self::progresses(old(self), final(self)),
            r matches Some(it) ==> (it matches Item::Declaration(d) && d.docs == docs && d.visibility == visibility
                && d.modifiers.mutable == modifiers.mutable),
            old(self).cur() == Some(TokenKind::Keyword(Keyword::Extern)) ==> (r is None && old(self).diagnostics@.len()
                < final(self).diagnostics@.len() && final(self).diagnostics@[old(self).diagnostics@.len() as int].message@
                == "extern declarations must use binding syntax"@),
            r matches Some(it) ==> (it matches Item::Declaration(d) && ((d.target is Destructure)
                == old(self).spec_destructure_at())),
            r matches Some(it) ==> (it matches Item::Declaration(d) && (d.target is Name && d.value is Expr ==> ((
                d.annotation is Some) == (old(self).kind_at(old(self).index + 1) == Some(TokenKind::Operator(Operator::Colon))
                && old(self).kind_at(old(self).index + 2) != Some(TokenKind::Operator(Operator::Equal)))))),
            r matches Some(it) ==> (it matches Item::Declaration(d) && (d.target matches DeclTarget::Name(n)
                ==> n.text@ == old(self).tokens@[old(self).index as int].lexeme@)),
            r matches Some(it) ==> (it matches Item::Declaration(d) && (d.target matches DeclTarget::Associated {
                owner,
                ..
            } ==> owner.text@ == old(self).tokens@[old(self).index as int].lexeme@ && old(self).kind_at(
                old(self).index + 1,
            ) == Some(TokenKind::Operator(Operator::Dot)))),
        decreases old(self).rem(), 2nat,
    {
        let mut modifiers = modifiers;
        if self.match_keyword(Keyword::Extern) {
            let span = self.prev_span();
            self.report_parser_error(
                DiagnosticCode::E3001,
                string_from_str("extern declarations must use binding syntax"),
                span,
                string_from_str("use `name := extern (args) ret`"),
            );
            let _ = self.parse_ident();
            if self.match_operator(Operator::Colon) {
                let _ = self.parse_type_expr();
                if self.match_operator(Operator::Equal) {
                    let _ = self.parse_string_literal();
                }
            }
            return None;
        }
        if self.looks_like_destructure_binding() {
            return self.parse_destructure_declaration(docs, visibility, modifiers);
        }
        let start = self.current_span();
        let name = match self.parse_ident() {
            Some(n) => n,
            None => return None,
        };
        // `TypeName.member := expr` or `TypeName.member: Type = expr`
        if !modifiers.mutable && self.match_operator(Operator::Dot) {
            let member = match self.parse_ident() {
                Some(m) => m,
                None => return None,
            };
            let annotation = if self.match_operator(Operator::Colon) {
                if self.peek_operator(Operator::Equal) {
                    self.advance();
                    None
                } else {
                    let ty = match self.parse_type_expr() {
                        Some(t) => t,
                        None => return None,
                    };
                    self.expect_operator(Operator::Equal, "expected '=' after type annotation");
                    Some(ty)
                }
            } else {
                self.expect_operator(Operator::Equal, "expected ':=' or '=' after member name");
                None
            };
            let value = match self.parse_expr(0) {
                Some(v) => v,
                None => return None,
            };
            let span = merge_span(start, value.span);
            return Some(Item::Declaration(Box::new(Declaration {
                docs,
                visibility,
                modifiers,
                target: DeclTarget::Associated { owner: name, member },
                annotation,
                value: DeclValue::Expr(value),
                span,
            })));
        }
        if self.match_operator(Operator::Colon) {
            if self.match_operator(Operator::Equal) {
                if allow_extern_bindings && self.match_keyword(Keyword::Extern) {
                    return self.finish_extern_binding(docs, visibility, modifiers, name, start);
                }
                let value = match self.parse_declaration_value_expr(&mut modifiers) {
                    Some(v) => v,
                    None => return None,
                };
                let span = merge_span(start, value.span);
                return Some(Item::Declaration(Box::new(Declaration {
                    docs,
                    visibility,
                    modifiers,
                    target: DeclTarget::Name(name),
                    annotation: None,
                    value: DeclValue::Expr(value),
                    span,
                })));
            }
            let annotation = match self.parse_type_expr() {
                Some(t) => t,
                None => return None,
            };
            self.expect_operator(Operator::Equal, "expected '=' after typed binding");
            let value = match self.parse_declaration_value_expr(&mut modifiers) {
                Some(v) => v,
                None => return None,
            };
            let span = merge_span(start, value.span);
            return Some(Item::Declaration(Box::new(Declaration {
                docs,
                visibility,
                modifiers,
                target: DeclTarget::Name(name),
                annotation: Some(annotation),
                value: DeclValue::Expr(value),
                span,
            })));
        }
        if self.match_operator(Operator::Equal) {
            if allow_extern_bindings && self.match_keyword(Keyword::Extern) {
                return self.finish_extern_binding(docs, visibility, modifiers, name, start);
            }
            let value = match self.parse_declaration_value_expr(&mut modifiers) {
                Some(v) => v,
                None => return None,
            };
            let span = merge_span(start, value.span);
            return Some(Item::Declaration(Box::new(Declaration {
                docs,
                visibility,
                modifiers,
                target: DeclTarget::Name(name),
                annotation: None,
                value: DeclValue::Expr(value),
                span,
            })));
        }
        None
    }

    /// Reads an extern binding's signature after `extern`, as a declaration
    /// of `name` with extern linkage; a `mut` binding is reported.
    fn finish_extern_binding(
        &mut self,
        docs: Vec<DocComment>,
        visibility: Visibility,
        modifiers: DeclModifiers,
        name: Ident,
        start: SourceSpan,
    ) -> (r: Option<Item>)
        requires
            old(self).wf(),
        ensures
            r is None ==> Self::failed_visibly(old(self), final(self)),
            Self::progresses(old(self), final(self)),
            old(self).at_delim(Delimiter::LParen) ==> r is Some,
            r matches Some(it) ==> (it matches Item::Declaration(d) && d.docs == docs && d.visibility == visibility
                && d.modifiers.mutable == modifiers.mutable && d.modifiers.inline == modifiers.inline
                && d.modifiers.linkage is Extern && d.target == DeclTarget::Name(name) && d.annotation is None
                && d.value is ExternSignature && d.span.start_byte == start.start_byte),
            modifiers.mutable ==> (old(self).diagnostics@.len() < final(self).diagnostics@.len()
                && final(self).diagnostics@[old(self).diagnostics@.len() as int].message@
                == "extern bindings cannot be mutable"@),
        decreases old(self).rem(), 6nat,
    {
        if modifiers.mutable {
            self.report_parser_error(
                DiagnosticCode::E3001,
                string_from_str("extern bindings cannot be mutable"),
                start,
                string_from_str("remove `mut` from extern function declaration"),
            );
        }
        let (ty, link_name, end) = match self.parse_extern_binding_signature() {
            Some(s) => s,
            None => return None,
        };
        let modifiers = DeclModifiers {
            mutable: modifiers.mutable,
            inline: modifiers.inline,
            linkage: Linkage::Extern { link_name },
        };
        Some(Item::Declaration(Box::new(Declaration {
            docs,
            visibility,
            modifiers,
            target: DeclTarget::Name(name),
            annotation: None,
            value: DeclValue::ExternSignature(ExternSignature { ty, link_name: None }),
            span: merge_span(start, end),
        })))
    }

    /// Reads a declaration's value; `inline` marks it and must come before a
    /// function value.
    fn parse_declaration_value_expr(&mut self, modifiers: &mut DeclModifiers) -> (r: Option<Expr>)
        requires
            old(self).wf(),
        ensures
            r is None ==> Self::failed_visibly(old(self), final(self)),
            Self::progresses(old(self), final(self)),
            final(modifiers).inline == (old(modifiers).inline || old(self).cur() == Some(TokenKind::Keyword(Keyword::Inline))),
            final(modifiers).mutable == old(modifiers).mutable,
            final(modifiers).linkage == old(modifiers).linkage,
            old(self).cur() != Some(TokenKind::Keyword(Keyword::Inline)) && old(modifiers).inline ==> (
            old(self).diagnostics@.len() < final(self).diagnostics@.len()
                && final(self).diagnostics@[old(self).diagnostics@.len() as int].message@
                == "inline declarations require an inline function value"@),
            old(self).cur() == Some(TokenKind::Keyword(Keyword::Inline)) ==> (r matches Some(v) ==> (!(v.kind is Fn)
                ==> old(self).diagnostics@.len() < final(self).diagnostics@.len())),
        decreases old(self).rem(), 10nat,
    {
        if self.match_keyword(Keyword::Inline) {
            let start = self.prev_span();
            modifiers.inline = true;
            let value = match self.parse_expr(100) {
                Some(v) => v,
                None => return None,
            };
            if !matches!(value.kind, ExprKind::Fn(_)) {
                self.report_parser_error(
                    DiagnosticCode::E3001,
                    string_from_str("declaration modifier `inline` requires a function value"),
                    merge_span(start, value.span),
                    string_from_str("use `inline` only before a function declaration value"),
                );
            }
            return Some(value);
        }
        if modifiers.inline {
            let span = self.current_span();
            self.report_parser_error(
                DiagnosticCode::E3001,
                string_from_str("inline declarations require an inline function value"),
                span,
                string_from_str("write `:= inline (...) ...`"),
            );
        }
        self.parse_expr(0)
    }

    /// Reads `{ [mut] a, [mut] b } := value`.
    fn parse_destructure_declaration(
        &mut self,
        docs: Vec<DocComment>,
        visibility: Visibility,
        modifiers: DeclModifiers,
    ) -> (r: Option<Item>)
        requires
            old(self).wf(),
            old(self).at_delim(Delimiter::LBrace),
        ensures
            r is None ==> Self::failed_visibly(old(self), final(self)),
            Self::continues(old(self), final(self)),
            old(self).index < final(self).index,
            r matches Some(it) ==> (it matches Item::Declaration(d) && d.docs == docs && d.visibility == visibility
                && d.modifiers == modifiers && d.target is Destructure),
        decreases old(self).rem(), 1nat,
    {
        let start = self.current_span();
        self.expect_delimiter(Delimiter::LBrace, "expected '{' for destructure pattern");
        let mut names: Vec<DestructureName> = Vec::new();
        while !self.peek_delimiter(Delimiter::RBrace) && !self.is_eof()
            invariant
                self.wf(),
                Self::continues(old(self), self),
                old(self).index < self.index,
            decreases self.tokens@.len() - self.index,
        {
            let mutable = self.match_keyword(Keyword::Mut);
            let name = match self.parse_ident() {
                Some(n) => n,
                None => return None,
            };
            names.push(DestructureName { mutable, name });
            if !self.match_delimiter(Delimiter::Comma) {
                break;
            }
        }
        self.expect_delimiter(Delimiter::RBrace, "expected '}' after destructure names");
        self.expect_operator(Operator::Colon, "expected ':=' after destructure pattern");
        self.expect_operator(Operator::Equal, "expected '=' after ':' in destructure");
        let value = match self.parse_expr(0) {
            Some(v) => v,
            None => return None,
        };
        let span = merge_span(start, value.span);
        Some(Item::Declaration(Box::new(Declaration {
            docs,
            visibility,
            modifiers,
            target: DeclTarget::Destructure(names),
            annotation: None,
            value: DeclValue::Expr(value),
            span,
        })))
    }

    /// A local declaration as a statement; an extern binding is reported
    /// instead, as local scope does not allow one.
    fn declaration_to_stmt(&mut self, decl: Box<Declaration>) -> (r: Option<Stmt>)
        requires
            old(self).wf(),
        ensures
            Self::continues(old(self), final(self)),
            (r is None) == (decl.value is ExternSignature),
            r matches Some(st) ==> (st == Stmt::Declaration(decl) && final(self).diagnostics == old(self).diagnostics),
            r is None ==> (final(self).diagnostics@.len() == old(self).diagnostics@.len() + 1
                && final(self).diagnostics@.last().code == DiagnosticCode::E3001
                && final(self).diagnostics@.last().message@ == "extern declarations are not allowed in local scope"@
                && (final(self).diagnostics@.last().primary_label matches Some(l) && l.span == Some(decl.span))),
            final(self).index == old(self).index,
    {
        if let DeclValue::ExternSignature(_) = &decl.value {
            self.report_parser_error(
                DiagnosticCode::E3001,
                string_from_str("extern declarations are not allowed in local scope"),
                decl.span,
                string_from_str("move this declaration to top level"),
            );
            return None;
        }
        Some(Stmt::Declaration(decl))
    }

    /// Skips tokens up to the next one that can begin a top-level item.
    fn sync_to_top_level_boundary(&mut self)
        requires
            old(self).wf(),
        ensures
            Self::continues(old(self), final(self)),
            final(self).index >= final(self).tokens@.len() || final(self).top_level_boundary_at(final(self).index as int),
            forall|i: int| old(self).index <= i < final(self).index ==> !#[trigger] final(self).top_level_boundary_at(i),
            final(self).diagnostics == old(self).diagnostics,
    {
        while !self.is_eof()
            invariant
                self.wf(),
                Self::continues(old(self), self),
                self.diagnostics == old(self).diagnostics,
                forall|i: int| old(self).index <= i < self.index ==> !#[trigger] self.top_level_boundary_at(i),
            ensures
                self.index >= self.tokens@.len() || self.top_level_boundary_at(self.index as int),
                forall|i: int| old(self).index <= i < self.index ==> !#[trigger] self.top_level_boundary_at(i),
            decreases self.tokens@.len() - self.index,
        {
            if self.peek_kind(TokenKind::Eof) || self.peek_kind(TokenKind::DocComment) || self.looks_like_top_level_item() {
                break;
            }
            let ghost before = *self;
            self.advance();
            proof {
                assert forall|i: int| old(self).index <= i < self.index implies !#[trigger] self.top_level_boundary_at(i) by {
                    Self::lemma_lookahead_same_tokens(&before, self, i);
                }
            }
        }
    }

    /// Reads the module declaration after any doc comments: `module name`,
    /// or the implicit module `main` when there is none.
    fn parse_module_decl(&mut self) -> (r: Option<ModuleDecl>)
        requires
            old(self).wf(),
        ensures
            Self::continues(old(self), final(self)),
            (r is None) == module_decl_unreadable(old(self).tokens@, old(self).index as int),
            r matches Some(d) ==> d.name.text@ == spec_module_name(old(self).tokens@, old(self).index as int),
            old(self).index >= old(self).tokens@.len() ==> (final(self).index == old(self).index
                && final(self).diagnostics == old(self).diagnostics),
            r is Some ==> (final(self).index == spec_after_module_decl(old(self).tokens@, old(self).index as int)
                && final(self).diagnostics == old(self).diagnostics),
    {
        while self.peek_kind(TokenKind::DocComment)
            invariant
                self.wf(),
                Self::continues(old(self), self),
                self.diagnostics == old(self).diagnostics,
                old(self).index >= old(self).tokens@.len() ==> (self.index == old(self).index
                    && self.diagnostics == old(self).diagnostics),
                first_non_doc(self.tokens@, self.index as int) == first_non_doc(old(self).tokens@, old(self).index as int),
            decreases self.tokens@.len() - self.index,
        {
            self.advance();
        }
        proof { reveal_strlit("main"); }
        let start = self.current_span();
        if !self.match_keyword(Keyword::Module) {
            return Some(ModuleDecl { name: Ident { text: string_from_str("main"), span: start }, span: start });
        }
        let name = match self.parse_ident() {
            Some(n) => n,
            None => return None,
        };
        let span = merge_span(start, name.span);
        Some(ModuleDecl { span, name })
    }

    /// Parses the whole file: its module declaration, then top-level items.
    /// A top-level expression is reported; other stray tokens are skipped to
    /// the next item.
    fn parse_all(&mut self) -> (r: Option<AstFile>)
        requires
            old(self).wf(),
            old(self).eof_guarded(),
        ensures
            r matches Some(f) ==> forall|k: int| 0 <= k < f.items@.len() ==> (#[trigger] f.items@[k]) is Declaration,
            Self::continues(old(self), final(self)),
            (r is None) == module_decl_unreadable(old(self).tokens@, old(self).index as int),
            r matches Some(f) ==> f.module_decl.name.text@ == spec_module_name(old(self).tokens@, old(self).index as int),
            old(self).index >= old(self).tokens@.len() ==> (final(self).diagnostics == old(self).diagnostics
                && (r matches Some(f) ==> f.items.len() == 0)),
            r matches Some(f) ==> Self::read_by_top_level_loop(
                old(self).tokens,
                spec_after_module_decl(old(self).tokens@, old(self).index as int),
                final(self).diagnostics@.len(),
                f.items@,
            ),
    {
        let module_decl = self.parse_module_decl();
        let ghost at_end = old(self).index >= old(self).tokens@.len();
        let ghost start = self.index as int;
        let ghost mut steps: Seq<(int, nat, bool)> = Seq::empty();
        let mut items: Vec<Item> = Vec::new();
        proof {
            Self::lemma_trace_start(self.tokens, start, self.diagnostics@.len());
        }
        while !self.is_eof()
            invariant
                self.wf(),
                Self::continues(old(self), self),
                self.eof_guarded(),
                at_end == (old(self).index >= old(self).tokens@.len()),
                at_end ==> (self.index >= self.tokens@.len() && self.diagnostics == old(self).diagnostics
                    && items.len() == 0),
                forall|k: int| 0 <= k < items@.len() ==> (#[trigger] items@[k]) is Declaration,
                Self::trace_holds(self.tokens, start, steps, self.index as int, self.diagnostics@.len(), items@),
            ensures
                self.index >= self.tokens@.len() || self.tokens@[self.index as int].kind == TokenKind::Eof,
            decreases self.tokens@.len() - self.index,
        {
            if self.peek_kind(TokenKind::Eof) {
                break;
            }
            let ghost p = self.index as int;
            let ghost d = self.diagnostics@.len();
            let ghost s0 = *self;
            let ghost items0 = items@;
            proof {
                Self::lemma_at_index_reads_alike(&s0);
            }
            if self.peek_kind(TokenKind::DocComment) || self.looks_like_top_level_item() {
                let ghost pushed: bool;
                let ghost it: Item;
                match self.parse_item(true) {
                    Some(item) => {
                        proof {
                            pushed = true;
                            it = item;
                        }
                        items.push(item);
                    },
                    None => {
                        proof {
                            pushed = false;
                            it = arbitrary();
                        }
                        self.sync_to_top_level_boundary();
                    },
                }
                proof {
                    Self::lemma_trace_extend(self.tokens, start, steps, p, d, pushed, self.index as int,
                        self.diagnostics@.len(), items0, items@, it);
                    steps = steps.push((p, d, pushed));
                }
                continue;
            }
            if self.starts_expr() {
                let start_span = self.current_span();
                let span = match self.parse_expr(0) {
                    Some(e) => e.span,
                    None => start_span,
                };
                self.report_parser_error(
                    DiagnosticCode::E3001,
                    string_from_str("top-level statements are not allowed"),
                    span,
                    string_from_str("move this expression into a declaration or function body"),
                );
                self.match_delimiter(Delimiter::Semicolon);
                proof {
                    Self::lemma_trace_extend(self.tokens, start, steps, p, d, false, self.index as int,
                        self.diagnostics@.len(), items0, items@, arbitrary());
                    steps = steps.push((p, d, false));
                }
                continue;
            }
            // The current token cannot begin an item, so skipping starts with it.
            self.advance();
            self.sync_to_top_level_boundary();
            proof {
                Self::lemma_trace_extend(self.tokens, start, steps, p, d, false, self.index as int,
                    self.diagnostics@.len(), items0, items@, arbitrary());
                steps = steps.push((p, d, false));
            }
        }
        proof {
            assert(Self::items_trace(self.tokens, start, steps, self.index as int, self.diagnostics@.len(), items@));
            assert(self.tokens == old(self).tokens);
        }
        match module_decl {
            Some(module_decl) => {
                let ghost iv = items@;
                let ghost en = self.index as int;
                let ghost dn = self.diagnostics@.len();
                proof {
                    assert(start == spec_after_module_decl(old(self).tokens@, old(self).index as int));
                    assert(Self::items_trace(old(self).tokens, spec_after_module_decl(old(self).tokens@, old(self).index as int),
                        steps, en, dn, iv));
                }
                let f = AstFile { span: module_decl.span, module_decl, items };
                proof {
                    assert(f.items@ == iv);
                    assert(Self::read_by_top_level_loop(old(self).tokens,
                        spec_after_module_decl(old(self).tokens@, old(self).index as int), dn, f.items@));
                }
                Some(f)
            },
            None => None,
        }
    }
}

/// The position of the first token at or after `i` that is not a doc comment.
pub open spec fn first_non_doc(tokens: Seq<Token>, i: int) -> int
    decreases tokens.len() - i,
{
    if 0 <= i < tokens.len() && tokens[i].kind == TokenKind::DocComment {
        first_non_doc(tokens, i + 1)
    } else {
        i
    }
}

/// After the leading doc comments the keyword `module` stands, and no name
/// (an identifier or keyword) follows it.
pub open spec fn module_decl_unreadable(tokens: Seq<Token>, start: int) -> bool {
    let i = first_non_doc(tokens, start);
    &&& 0 <= i < tokens.len()
    &&& tokens[i].kind == TokenKind::Keyword(Keyword::Module)
    &&& !(i + 1 < tokens.len() && (tokens[i + 1].kind == TokenKind::Identifier
        || tokens[i + 1].kind matches TokenKind::Keyword(_)))
}

/// Where the top-level declarations begin: after the module declaration,
/// or after the leading doc comments when there is none.
pub open spec fn spec_after_module_decl(tokens: Seq<Token>, start: int) -> int {
    let i = first_non_doc(tokens, start);
    if 0 <= i < tokens.len() && tokens[i].kind == TokenKind::Keyword(Keyword::Module) {
        i + 2
    } else {
        i
    }
}

/// The module's name: the word after `module`, or `main` without a module declaration.
pub open spec fn spec_module_name(tokens: Seq<Token>, start: int) -> Seq<char> {
    let i = first_non_doc(tokens, start);
    if 0 <= i < tokens.len() && tokens[i].kind == TokenKind::Keyword(Keyword::Module) {
        tokens[i + 1].lexeme@
    } else {
        "main"@
    }
}

/// Tokens that can begin an expression.
pub open spec fn spec_starts_expr(k: TokenKind) -> bool {
    match k {
        TokenKind::Identifier | TokenKind::BuiltinIdentifier | TokenKind::IntLiteral | TokenKind::FloatLiteral
        | TokenKind::StringLiteral | TokenKind::CharLiteral | TokenKind::NullLiteral | TokenKind::BoolLiteral(_) => true,
        TokenKind::Keyword(kw) => match kw {
            Keyword::If | Keyword::Match | Keyword::For | Keyword::Break | Keyword::Continue | Keyword::Return
            | Keyword::Defer | Keyword::Comp | Keyword::Inline | Keyword::Use | Keyword::Packed | Keyword::Struct
            | Keyword::Enum => true,
            _ => false,
        },
        TokenKind::Delimiter(d) => d == Delimiter::LParen || d == Delimiter::LBracket || d == Delimiter::LBrace,
        TokenKind::Operator(op) => op == Operator::Minus || op == Operator::Bang || op == Operator::Tilde
            || op == Operator::Ampersand || op == Operator::Dot,
        _ => false,
    }
}

/// Whether a token can begin an expression.
fn starts_expr_kind(k: TokenKind) -> (r: bool)
    ensures
        r == spec_starts_expr(k),
{
    match k {
        TokenKind::Identifier | TokenKind::BuiltinIdentifier | TokenKind::IntLiteral | TokenKind::FloatLiteral
        | TokenKind::StringLiteral | TokenKind::CharLiteral | TokenKind::NullLiteral | TokenKind::BoolLiteral(_) => true,
        TokenKind::Keyword(kw) => match kw {
            Keyword::If | Keyword::Match | Keyword::For | Keyword::Break | Keyword::Continue | Keyword::Return
            | Keyword::Defer | Keyword::Comp | Keyword::Inline | Keyword::Use | Keyword::Packed | Keyword::Struct
            | Keyword::Enum => true,
            _ => false,
        },
        TokenKind::Delimiter(d) => d == Delimiter::LParen || d == Delimiter::LBracket || d == Delimiter::LBrace,
        TokenKind::Operator(op) => op == Operator::Minus || op == Operator::Bang || op == Operator::Tilde
            || op == Operator::Ampersand || op == Operator::Dot,
        _ => false,
    }
}

/// Tokens that can begin a type.
pub open spec fn spec_starts_type(k: TokenKind) -> bool {
    match k {
        TokenKind::Identifier => true,
        TokenKind::Keyword(kw) => kw == Keyword::Type || kw == Keyword::Packed || kw == Keyword::Struct
            || kw == Keyword::Enum || kw == Keyword::Inline || kw == Keyword::Comp,
        TokenKind::Operator(op) => op == Operator::Question || op == Operator::Star,
        TokenKind::Delimiter(d) => d == Delimiter::LBracket || d == Delimiter::LParen,
        _ => false,
    }
}

/// Tokens that can begin a match pattern.
pub open spec fn spec_pattern_start(k: TokenKind) -> bool {
    match k {
        TokenKind::Identifier | TokenKind::Keyword(_) | TokenKind::IntLiteral | TokenKind::FloatLiteral
        | TokenKind::StringLiteral | TokenKind::CharLiteral | TokenKind::BoolLiteral(_) | TokenKind::NullLiteral => true,
        TokenKind::Operator(op) => op == Operator::Dot,
        _ => false,
    }
}

/// The precedence of an operator token as a binary operator; -1 for one
/// that is not binary.
pub open spec fn binary_precedence(op: Operator) -> int {
    match spec_binary_op(TokenKind::Operator(op)) {
        Some(t) => t.1 as int,
        None => -1,
    }
}

/// The binary operator an operator token stands for.
pub open spec fn binary_kind(op: Operator) -> Option<BinaryOp> {
    match spec_binary_op(TokenKind::Operator(op)) {
        Some(t) => Some(t.0),
        None => None,
    }
}

/// Whether an operator token associates to the right.
pub open spec fn binary_right_assoc(op: Operator) -> bool {
    match spec_binary_op(TokenKind::Operator(op)) {
        Some(t) => t.2,
        None => false,
    }
}

/// The binary operators bind, from tightest to loosest: `* / %`, then
/// `+ -`, then `<< >>`, then `&`, then `^`, then `|`, then the comparisons
/// `== != < <= > >=`, then `&&`, then `||`, then the ranges `.. ..=`; the
/// operators of one level bind alike, only the ranges associate to the
/// right, and each token stands for its own operator. So `a || b && c` is
/// `a || (b && c)` and `a + b * c` is `a + (b * c)`. Other tokens are no
/// binary operators.
pub proof fn lemma_binary_operator_precedence()
    ensures
        binary_precedence(Operator::Star) == binary_precedence(Operator::Slash),
        binary_precedence(Operator::Star) == binary_precedence(Operator::Percent),
        binary_precedence(Operator::Star) > binary_precedence(Operator::Plus),
        binary_precedence(Operator::Plus) == binary_precedence(Operator::Minus),
        binary_precedence(Operator::Plus) > binary_precedence(Operator::LeftShift),
        binary_precedence(Operator::LeftShift) == binary_precedence(Operator::RightShift),
        binary_precedence(Operator::LeftShift) > binary_precedence(Operator::Ampersand),
        binary_precedence(Operator::Ampersand) > binary_precedence(Operator::Caret),
        binary_precedence(Operator::Caret) > binary_precedence(Operator::Pipe),
        binary_precedence(Operator::Pipe) > binary_precedence(Operator::EqualEqual),
        binary_precedence(Operator::EqualEqual) == binary_precedence(Operator::BangEqual),
        binary_precedence(Operator::EqualEqual) == binary_precedence(Operator::Less),
        binary_precedence(Operator::EqualEqual) == binary_precedence(Operator::LessEqual),
        binary_precedence(Operator::EqualEqual) == binary_precedence(Operator::Greater),
        binary_precedence(Operator::EqualEqual) == binary_precedence(Operator::GreaterEqual),
        binary_precedence(Operator::EqualEqual) > binary_precedence(Operator::AndAnd),
        binary_precedence(Operator::AndAnd) > binary_precedence(Operator::OrOr),
        binary_precedence(Operator::OrOr) > binary_precedence(Operator::DotDot),
        binary_precedence(Operator::DotDot) == binary_precedence(Operator::DotDotEq),
        binary_precedence(Operator::DotDot) > 0,
        forall|op: Operator| binary_kind(op) is Some ==> (binary_right_assoc(op) <==> (op == Operator::DotDot
            || op == Operator::DotDotEq)),
        binary_kind(Operator::Star) == Some(BinaryOp::Mul),
        binary_kind(Operator::Slash) == Some(BinaryOp::Div),
        binary_kind(Operator::Percent) == Some(BinaryOp::Mod),
        binary_kind(Operator::Plus) == Some(BinaryOp::Add),
        binary_kind(Operator::Minus) == Some(BinaryOp::Sub),
        binary_kind(Operator::LeftShift) == Some(BinaryOp::Shl),
        binary_kind(Operator::RightShift) == Some(BinaryOp::Shr),
        binary_kind(Operator::Ampersand) == Some(BinaryOp::BitAnd),
        binary_kind(Operator::Caret) == Some(BinaryOp::BitXor),
        binary_kind(Operator::Pipe) == Some(BinaryOp::BitOr),
        binary_kind(Operator::EqualEqual) == Some(BinaryOp::Eq),
        binary_kind(Operator::BangEqual) == Some(BinaryOp::Ne),
        binary_kind(Operator::Less) == Some(BinaryOp::Lt),
        binary_kind(Operator::LessEqual) == Some(BinaryOp::Le),
        binary_kind(Operator::Greater) == Some(BinaryOp::Gt),
        binary_kind(Operator::GreaterEqual) == Some(BinaryOp::Ge),
        binary_kind(Operator::AndAnd) == Some(BinaryOp::LogicalAnd),
        binary_kind(Operator::OrOr) == Some(BinaryOp::LogicalOr),
        binary_kind(Operator::DotDot) == Some(BinaryOp::Range),
        binary_kind(Operator::DotDotEq) == Some(BinaryOp::RangeInclusive),
        forall|op: Operator| (binary_kind(op) is None) <==> (op == Operator::Colon || op == Operator::Equal
            || op == Operator::Dot || op == Operator::DotQuestion || op == Operator::DotBang || op == Operator::DotStar
            || op == Operator::FatArrow || op == Operator::Bang || op == Operator::Tilde || op == Operator::Question
            || op == Operator::PlusEqual || op == Operator::MinusEqual || op == Operator::StarEqual
            || op == Operator::SlashEqual || op == Operator::PercentEqual || op == Operator::AmpersandEqual
            || op == Operator::PipeEqual || op == Operator::CaretEqual || op == Operator::LeftShiftEqual
            || op == Operator::RightShiftEqual),
        forall|k: TokenKind| !(k is Operator) ==> spec_binary_op(k) is None,
{
}

/// The binary operator a token stands for, its precedence (higher binds
/// tighter) and whether it associates to the right (only the ranges do).
pub open spec fn spec_binary_op(k: TokenKind) -> Option<(BinaryOp, u8, bool)> {
    match k {
        TokenKind::Operator(op) => match op {
            Operator::Star => Some((BinaryOp::Mul, 80, false)),
            Operator::Slash => Some((BinaryOp::Div, 80, false)),
            Operator::Percent => Some((BinaryOp::Mod, 80, false)),
            Operator::Plus => Some((BinaryOp::Add, 70, false)),
            Operator::Minus => Some((BinaryOp::Sub, 70, false)),
            Operator::LeftShift => Some((BinaryOp::Shl, 65, false)),
            Operator::RightShift => Some((BinaryOp::Shr, 65, false)),
            Operator::Ampersand => Some((BinaryOp::BitAnd, 60, false)),
            Operator::Caret => Some((BinaryOp::BitXor, 55, false)),
            Operator::Pipe => Some((BinaryOp::BitOr, 50, false)),
            Operator::EqualEqual => Some((BinaryOp::Eq, 40, false)),
            Operator::BangEqual => Some((BinaryOp::Ne, 40, false)),
            Operator::Less => Some((BinaryOp::Lt, 40, false)),
            Operator::LessEqual => Some((BinaryOp::Le, 40, false)),
            Operator::Greater => Some((BinaryOp::Gt, 40, false)),
            Operator::GreaterEqual => Some((BinaryOp::Ge, 40, false)),
            Operator::AndAnd => Some((BinaryOp::LogicalAnd, 30, false)),
            Operator::OrOr => Some((BinaryOp::LogicalOr, 20, false)),
            Operator::DotDot => Some((BinaryOp::Range, 10, true)),
            Operator::DotDotEq => Some((BinaryOp::RangeInclusive, 10, true)),
            _ => None,
        },
        _ => None,
    }
}

/// The binary operator a token stands for, with precedence and associativity.
fn binary_op_of(k: TokenKind) -> (r: Option<(BinaryOp, u8, bool)>)
    ensures
        r == spec_binary_op(k),
{
    match k {
        TokenKind::Operator(op) => match op {
            Operator::Star => Some((BinaryOp::Mul, 80, false)),
            Operator::Slash => Some((BinaryOp::Div, 80, false)),
            Operator::Percent => Some((BinaryOp::Mod, 80, false)),
            Operator::Plus => Some((BinaryOp::Add, 70, false)),
            Operator::Minus => Some((BinaryOp::Sub, 70, false)),
            Operator::LeftShift => Some((BinaryOp::Shl, 65, false)),
            Operator::RightShift => Some((BinaryOp::Shr, 65, false)),
            Operator::Ampersand => Some((BinaryOp::BitAnd, 60, false)),
            Operator::Caret => Some((BinaryOp::BitXor, 55, false)),
            Operator::Pipe => Some((BinaryOp::BitOr, 50, false)),
            Operator::EqualEqual => Some((BinaryOp::Eq, 40, false)),
            Operator::BangEqual => Some((BinaryOp::Ne, 40, false)),
            Operator::Less => Some((BinaryOp::Lt, 40, false)),
            Operator::LessEqual => Some((BinaryOp::Le, 40, false)),
            Operator::Greater => Some((BinaryOp::Gt, 40, false)),
            Operator::GreaterEqual => Some((BinaryOp::Ge, 40, false)),
            Operator::AndAnd => Some((BinaryOp::LogicalAnd, 30, false)),
            Operator::OrOr => Some((BinaryOp::LogicalOr, 20, false)),
            Operator::DotDot => Some((BinaryOp::Range, 10, true)),
            Operator::DotDotEq => Some((BinaryOp::RangeInclusive, 10, true)),
            _ => None,
        },
        _ => None,
    }
}

/// The assignment operator a token stands for.
pub open spec fn spec_assign_op(k: TokenKind) -> Option<AssignOp> {
    match k {
        TokenKind::Operator(op) => match op {
            Operator::Equal => Some(AssignOp::Assign),
            Operator::PlusEqual => Some(AssignOp::AddAssign),
            Operator::MinusEqual => Some(AssignOp::SubAssign),
            Operator::StarEqual => Some(AssignOp::MulAssign),
            Operator::SlashEqual => Some(AssignOp::DivAssign),
            Operator::PercentEqual => Some(AssignOp::ModAssign),
            Operator::AmpersandEqual => Some(AssignOp::BitAndAssign),
            Operator::PipeEqual => Some(AssignOp::BitOrAssign),
            Operator::CaretEqual => Some(AssignOp::BitXorAssign),
            Operator::LeftShiftEqual => Some(AssignOp::ShlAssign),
            Operator::RightShiftEqual => Some(AssignOp::ShrAssign),
            _ => None,
        },
        _ => None,
    }
}

/// `pattern` with `capture` as its binding when it is an enum pattern that
/// binds nothing.
fn with_enum_capture(pattern: Pattern, capture: Ident) -> (r: Pattern)
    ensures
        r.span == pattern.span,
{
    let Pattern { span, kind } = pattern;
    match kind {
        PatternKind::EnumVariant { root, variant, mut bindings } => {
            if bindings.len() == 0 {
                bindings.push(capture);
            }
            Pattern { span, kind: PatternKind::EnumVariant { root, variant, bindings } }
        },
        other => Pattern { span, kind: other },
    }
}

/// Parses a file's tokens: the syntax tree, unless the module declaration
/// cannot be read, and the parser's diagnostics, each labelled with
/// `file_path`.
pub fn parse_file(file_path: String, tokens: &Vec<Token>) -> (r: ParseOutput)
    ensures
        forall|i: int| 0 <= i < r.diagnostics@.len() ==> is_parser_diagnostic(#[trigger] r.diagnostics@[i], file_path@),
        (r.ast is None) == module_decl_unreadable(tokens@, 0),
        r.ast matches Some(f) ==> f.module_decl.name.text@ == spec_module_name(tokens@, 0),
        r.ast matches Some(f) ==> forall|k: int| 0 <= k < f.items@.len() ==> (#[trigger] f.items@[k]) is Declaration,
        r.ast matches Some(f) ==> Parser::read_by_top_level_loop(tokens, spec_after_module_decl(tokens@, 0),
            r.diagnostics@.len(), f.items@),
        tokens@.len() == 0 ==> (r.diagnostics@.len() == 0 && (r.ast matches Some(f) && f.items.len() == 0
            && f.module_decl.name.text@ == "main"@)),
{
    let mut parser = Parser::new(file_path, tokens);
    assert(parser.eof_guarded());
    let ast = parser.parse_all();
    ParseOutput { ast, diagnostics: parser.diagnostics }
}

} // verus!
