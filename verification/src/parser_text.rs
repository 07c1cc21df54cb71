//! Token-level text helpers of the parser: literal unescaping, token
//! descriptions for diagnostics, and small facts about parsed nodes.

use vstd::prelude::*;
use crate::ast::{Expr, ExprKind, PatternLiteral, Stmt};
use crate::span::SourceSpan;
use crate::text::{chars_of, chars_of_string, push_str, string_from_chars, string_push};
use crate::token::{Token, TokenKind};
use crate::module_resolver::{trim_char, trim_char_chars};

verus! {

/// The character that an escape `\c` stands for.
pub open spec fn spec_escaped(c: char) -> char {
    if c == 'n' {
        '\n'
    } else if c == 'r' {
        '\r'
    } else if c == 't' {
        '\t'
    } else if c == '0' {
        '\0'
    } else {
        c
    }
}

/// The character that an escape `\c` stands for: `n`, `r`, `t` and `0` give
/// line feed, carriage return, tab and NUL; any other character stands for itself.
pub fn escaped(c: char) -> (r: char)
    ensures
        r == spec_escaped(c),
{
    if c == 'n' {
        '\n'
    } else if c == 'r' {
        '\r'
    } else if c == 't' {
        '\t'
    } else if c == '0' {
        '\0'
    } else {
        c
    }
}

/// Text with its backslash escapes resolved; a final lone backslash stays.
pub open spec fn spec_unescape(s: Seq<char>) -> Seq<char>
    decreases s.len(),
{
    if s.len() == 0 {
        Seq::empty()
    } else if s[0] != '\\' {
        seq![s[0]] + spec_unescape(s.drop_first())
    } else if s.len() == 1 {
        seq!['\\']
    } else {
        seq![spec_escaped(s[1])] + spec_unescape(s.subrange(2, s.len() as int))
    }
}

/// The contents of a string literal's lexeme: without its surrounding
/// quotes, when it has both.
pub open spec fn string_content(lexeme: Seq<char>) -> Seq<char> {
    if lexeme.len() >= 2 && lexeme[0] == '"' && lexeme.last() == '"' {
        lexeme.subrange(1, lexeme.len() - 1)
    } else {
        lexeme
    }
}

/// The value of a string literal token.
pub open spec fn spec_string_from_lexeme(lexeme: Seq<char>) -> Seq<char> {
    spec_unescape(string_content(lexeme))
}

/// The value of a string literal: the lexeme without its quotes, escapes resolved.
pub fn string_from_lexeme(lexeme: &str) -> (r: String)
    ensures
        r@ == spec_string_from_lexeme(lexeme@),
{
    let chars = chars_of(lexeme);
    let n = chars.len();
    let (lo, hi) = if n >= 2 && chars[0] == '"' && chars[n - 1] == '"' { (1, n - 1) } else { (0, n) };
    let ghost content = string_content(chars@);
    assert(chars@.subrange(lo as int, hi as int) =~= content);
    let mut out = String::new();
    let mut i: usize = lo;
    while i < hi
        invariant
            lo <= i <= hi,
            hi <= n == chars@.len(),
            chars@ == lexeme@,
            content == string_content(chars@),
            content == chars@.subrange(lo as int, hi as int),
            out@ + spec_unescape(chars@.subrange(i as int, hi as int)) == spec_unescape(content),
        decreases hi - i,
    {
        let ghost rest = chars@.subrange(i as int, hi as int);
        let ghost before = out@;
        let ch = chars[i];
        if ch != '\\' {
            string_push(&mut out, ch);
            assert(rest.drop_first() =~= chars@.subrange(i + 1, hi as int));
            assert(before + spec_unescape(rest) =~= out@ + spec_unescape(chars@.subrange(i + 1, hi as int)));
            i = i + 1;
            continue;
        }
        if i + 1 >= hi {
            string_push(&mut out, '\\');
            assert(out@ =~= before + spec_unescape(rest));
            assert(out@ == spec_unescape(content));
            return out;
        }
        string_push(&mut out, escaped(chars[i + 1]));
        assert(rest.subrange(2, rest.len() as int) =~= chars@.subrange(i + 2, hi as int));
        assert(before + spec_unescape(rest) =~= out@ + spec_unescape(chars@.subrange(i + 2, hi as int)));
        i = i + 2;
    }
    assert(chars@.subrange(i as int, hi as int) =~= Seq::<char>::empty());
    assert(out@ =~= spec_unescape(content));
    out
}

/// The value of a character literal token.
pub open spec fn spec_char_from_lexeme(lexeme: Seq<char>) -> char {
    let t = trim_char(lexeme, '\'');
    if t.len() > 0 && t[0] == '\\' {
        if t.len() > 1 { spec_escaped(t[1]) } else { '\0' }
    } else if t.len() > 0 {
        t[0]
    } else {
        '\0'
    }
}

/// The value of a character literal: its quotes removed and an escape
/// resolved; NUL when nothing is left.
pub fn char_from_lexeme(lexeme: &str) -> (r: char)
    ensures
        r == spec_char_from_lexeme(lexeme@),
{
    let chars = chars_of(lexeme);
    let t = trim_char_chars(&chars, '\'');
    if t.len() > 0 && t[0] == '\\' {
        if t.len() > 1 { escaped(t[1]) } else { '\0' }
    } else if t.len() > 0 {
        t[0]
    } else {
        '\0'
    }
}

/// A hexadecimal digit, lower case.
pub open spec fn hex_digit(d: nat) -> char {
    if d < 10 { ((d + 48) as u8) as char } else { ((d + 87) as u8) as char }
}

/// The lower-case hexadecimal digits of `n`, without leading zeros.
pub open spec fn spec_hex(n: nat) -> Seq<char>
    decreases n,
{
    if n < 16 { seq![hex_digit(n)] } else { spec_hex(n / 16) + seq![hex_digit(n % 16)] }
}

/// Appends the hexadecimal digits of `n`.
fn push_hex(out: &mut String, n: u32)
    ensures
        final(out)@ == old(out)@ + spec_hex(n as nat),
    decreases n,
{
    if n >= 16 {
        push_hex(out, n / 16);
    }
    let d = n % 16;
    let c: char = if d < 10 { ((d + 48) as u8) as char } else { ((d + 87) as u8) as char };
    string_push(out, c);
    assert(c == hex_digit((n % 16) as nat));
}

/// How `char::escape_default` writes a character.
pub open spec fn spec_escape_default(c: char) -> Seq<char> {
    if c == '\t' {
        seq!['\\', 't']
    } else if c == '\r' {
        seq!['\\', 'r']
    } else if c == '\n' {
        seq!['\\', 'n']
    } else if c == '\\' || c == '\'' || c == '"' {
        seq!['\\', c]
    } else if ' ' <= c && c <= '~' {
        seq![c]
    } else {
        seq!['\\', 'u', '{'] + spec_hex(c as nat) + seq!['}']
    }
}

/// A text with every character escaped as `char::escape_default` does.
pub open spec fn spec_escape_text(s: Seq<char>) -> Seq<char>
    decreases s.len(),
{
    if s.len() == 0 { Seq::empty() } else { spec_escape_text(s.drop_last()) + spec_escape_default(s.last()) }
}

/// Appends a character escaped as `char::escape_default` writes it.
fn push_escaped(out: &mut String, c: char)
    ensures
        final(out)@ == old(out)@ + spec_escape_default(c),
{
    let ghost before = out@;
    if c == '\t' {
        string_push(out, '\\');
        string_push(out, 't');
    } else if c == '\r' {
        string_push(out, '\\');
        string_push(out, 'r');
    } else if c == '\n' {
        string_push(out, '\\');
        string_push(out, 'n');
    } else if c == '\\' || c == '\'' || c == '"' {
        string_push(out, '\\');
        string_push(out, c);
    } else if ' ' <= c && c <= '~' {
        string_push(out, c);
    } else {
        string_push(out, '\\');
        string_push(out, 'u');
        string_push(out, '{');
        push_hex(out, c as u32);
        string_push(out, '}');
    }
    assert(out@ =~= before + spec_escape_default(c));
}

/// How a token is named in a diagnostic.
pub open spec fn spec_token_description(kind: TokenKind, lexeme: Seq<char>) -> Seq<char> {
    if kind == TokenKind::Eof {
        "end of file"@
    } else if lexeme.len() == 0 {
        "token"@
    } else {
        seq!['`'] + spec_escape_text(lexeme) + seq!['`']
    }
}

/// How a token is named in a diagnostic: `end of file`, `token` for an
/// empty lexeme, or the lexeme escaped and in backquotes.
pub fn token_description(token: &Token) -> (r: String)
    ensures
        r@ == spec_token_description(token.kind, token.lexeme@),
{
    if token.kind == TokenKind::Eof {
        return crate::text::string_from_str("end of file");
    }
    let chars = chars_of_string(&token.lexeme);
    if chars.len() == 0 {
        return crate::text::string_from_str("token");
    }
    let mut out = String::new();
    string_push(&mut out, '`');
    let mut i: usize = 0;
    while i < chars.len()
        invariant
            i <= chars@.len(),
            out@ == seq!['`'] + spec_escape_text(chars@.take(i as int)),
        decreases chars.len() - i,
    {
        assert(chars@.take(i + 1).drop_last() =~= chars@.take(i as int));
        push_escaped(&mut out, chars[i]);
        assert(out@ =~= seq!['`'] + spec_escape_text(chars@.take(i + 1)));
        i = i + 1;
    }
    assert(chars@.take(chars@.len() as int) =~= chars@);
    string_push(&mut out, '`');
    out
}

/// The literal value a literal token gives in a pattern; any other token
/// gives its lexeme as a string.
pub fn pattern_literal_from_token(token: &Token) -> (r: PatternLiteral)
    ensures
        match token.kind {
            TokenKind::IntLiteral => r matches PatternLiteral::Integer(s) && s@ == token.lexeme@,
            TokenKind::FloatLiteral => r matches PatternLiteral::Float(s) && s@ == token.lexeme@,
            TokenKind::StringLiteral => r matches PatternLiteral::String(s) && s@ == spec_string_from_lexeme(token.lexeme@),
            TokenKind::CharLiteral => r == PatternLiteral::Char(spec_char_from_lexeme(token.lexeme@)),
            TokenKind::BoolLiteral(b) => r == PatternLiteral::Bool(b),
            TokenKind::NullLiteral => r == PatternLiteral::Null,
            _ => r matches PatternLiteral::String(s) && s@ == token.lexeme@,
        },
{
    match token.kind {
        TokenKind::IntLiteral => PatternLiteral::Integer(token.lexeme.clone()),
        TokenKind::FloatLiteral => PatternLiteral::Float(token.lexeme.clone()),
        TokenKind::StringLiteral => PatternLiteral::String(string_from_lexeme(token.lexeme.as_str())),
        TokenKind::CharLiteral => PatternLiteral::Char(char_from_lexeme(token.lexeme.as_str())),
        TokenKind::BoolLiteral(value) => PatternLiteral::Bool(value),
        TokenKind::NullLiteral => PatternLiteral::Null,
        _ => PatternLiteral::String(token.lexeme.clone()),
    }
}

/// An expression statement may end a block as its value: anything but a
/// jump or an `if` without `else`.
pub open spec fn spec_can_be_block_tail(expr: Expr) -> bool {
    match expr.kind {
        ExprKind::If(if_expr) => if_expr.else_branch is Some,
        ExprKind::Break(_) | ExprKind::Continue { .. } | ExprKind::Return { .. } => false,
        _ => true,
    }
}

/// Whether an expression statement can be a block's value.
pub fn expr_can_be_block_tail(expr: &Expr) -> (r: bool)
    ensures
        r == spec_can_be_block_tail(*expr),
{
    match &expr.kind {
        ExprKind::If(if_expr) => if_expr.else_branch.is_some(),
        ExprKind::Break(_) | ExprKind::Continue { .. } | ExprKind::Return { .. } => false,
        _ => true,
    }
}

/// The span of a statement.
pub open spec fn spec_stmt_span(stmt: Stmt) -> SourceSpan {
    match stmt {
        Stmt::Declaration(decl) => decl.span,
        Stmt::Assignment(assign) => assign.span,
        Stmt::Expr(expr) => expr.span,
    }
}

/// The span of a statement.
pub fn stmt_span(stmt: &Stmt) -> (r: SourceSpan)
    ensures
        r == spec_stmt_span(*stmt),
{
    match stmt {
        Stmt::Declaration(decl) => decl.span,
        Stmt::Assignment(assign) => assign.span,
        Stmt::Expr(expr) => expr.span,
    }
}

} // verus!
