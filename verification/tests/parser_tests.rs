use lib::ast::{BinaryOp, DeclTarget, DeclValue, ExprKind, FnBody, ForExpr, Item, Literal, PatternKind};
use lib::diagnostics::{DiagnosticCode, DiagnosticPhase};
use lib::parser::{parse_file, ParseOutput};
use lib::parser_text::{char_from_lexeme, string_from_lexeme, token_description};
use lib::span::SourceSpan;
use lib::token::{Delimiter, Keyword, Operator, Token, TokenKind};

fn keyword(word: &str) -> Option<Keyword> {
    Some(match word {
        "module" => Keyword::Module,
        "pub" => Keyword::Pub,
        "extern" => Keyword::Extern,
        "mut" => Keyword::Mut,
        "inline" => Keyword::Inline,
        "or" => Keyword::Or,
        "if" => Keyword::If,
        "else" => Keyword::Else,
        "match" => Keyword::Match,
        "for" => Keyword::For,
        "break" => Keyword::Break,
        "continue" => Keyword::Continue,
        "return" => Keyword::Return,
        "defer" => Keyword::Defer,
        "comp" => Keyword::Comp,
        "use" => Keyword::Use,
        "packed" => Keyword::Packed,
        "struct" => Keyword::Struct,
        "enum" => Keyword::Enum,
        "type" => Keyword::Type,
        _ => return None,
    })
}

const OPERATORS: &[(&str, Operator)] = &[
    ("<<=", Operator::LeftShiftEqual),
    (">>=", Operator::RightShiftEqual),
    ("..=", Operator::DotDotEq),
    ("..", Operator::DotDot),
    (".?", Operator::DotQuestion),
    (".!", Operator::DotBang),
    (".*", Operator::DotStar),
    ("=>", Operator::FatArrow),
    ("==", Operator::EqualEqual),
    ("!=", Operator::BangEqual),
    ("<=", Operator::LessEqual),
    (">=", Operator::GreaterEqual),
    ("<<", Operator::LeftShift),
    (">>", Operator::RightShift),
    ("&&", Operator::AndAnd),
    ("||", Operator::OrOr),
    ("+=", Operator::PlusEqual),
    ("-=", Operator::MinusEqual),
    ("*=", Operator::StarEqual),
    ("/=", Operator::SlashEqual),
    ("%=", Operator::PercentEqual),
    ("&=", Operator::AmpersandEqual),
    ("|=", Operator::PipeEqual),
    ("^=", Operator::CaretEqual),
    (":", Operator::Colon),
    ("=", Operator::Equal),
    (".", Operator::Dot),
    ("|", Operator::Pipe),
    ("+", Operator::Plus),
    ("-", Operator::Minus),
    ("*", Operator::Star),
    ("/", Operator::Slash),
    ("%", Operator::Percent),
    ("!", Operator::Bang),
    ("~", Operator::Tilde),
    ("&", Operator::Ampersand),
    ("^", Operator::Caret),
    ("?", Operator::Question),
    ("<", Operator::Less),
    (">", Operator::Greater),
];

/// A small lexer for the tests: enough of the language to drive the parser.
fn lex(source: &str) -> Vec<Token> {
    let chars: Vec<char> = source.chars().collect();
    let mut tokens = Vec::new();
    let (mut i, mut line, mut col) = (0usize, 1usize, 1usize);
    while i < chars.len() {
        let c = chars[i];
        if c == '\n' {
            i += 1;
            line += 1;
            col = 1;
            continue;
        }
        if c.is_whitespace() {
            i += 1;
            col += 1;
            continue;
        }
        let start = i;
        let kind;
        if source[i..].starts_with("///") {
            while i < chars.len() && chars[i] != '\n' {
                i += 1;
            }
            kind = TokenKind::DocComment;
        } else if source[i..].starts_with("//") {
            while i < chars.len() && chars[i] != '\n' {
                i += 1;
            }
            continue;
        } else if c.is_ascii_alphabetic() || c == '_' || c == '$' {
            i += 1;
            while i < chars.len() && (chars[i].is_ascii_alphanumeric() || chars[i] == '_') {
                i += 1;
            }
            let word: String = chars[start..i].iter().collect();
            kind = if c == '$' {
                TokenKind::BuiltinIdentifier
            } else if word == "true" || word == "false" {
                TokenKind::BoolLiteral(word == "true")
            } else if word == "null" {
                TokenKind::NullLiteral
            } else if let Some(k) = keyword(&word) {
                TokenKind::Keyword(k)
            } else {
                TokenKind::Identifier
            };
        } else if c.is_ascii_digit() {
            while i < chars.len() && chars[i].is_ascii_digit() {
                i += 1;
            }
            if i + 1 < chars.len() && chars[i] == '.' && chars[i + 1].is_ascii_digit() {
                i += 1;
                while i < chars.len() && chars[i].is_ascii_digit() {
                    i += 1;
                }
                kind = TokenKind::FloatLiteral;
            } else {
                kind = TokenKind::IntLiteral;
            }
        } else if c == '"' || c == '\'' {
            i += 1;
            while i < chars.len() && chars[i] != c {
                if chars[i] == '\\' {
                    i += 1;
                }
                i += 1;
            }
            i += 1;
            kind = if c == '"' { TokenKind::StringLiteral } else { TokenKind::CharLiteral };
        } else if let Some(d) = match c {
            '(' => Some(Delimiter::LParen),
            ')' => Some(Delimiter::RParen),
            '[' => Some(Delimiter::LBracket),
            ']' => Some(Delimiter::RBracket),
            '{' => Some(Delimiter::LBrace),
            '}' => Some(Delimiter::RBrace),
            ',' => Some(Delimiter::Comma),
            ';' => Some(Delimiter::Semicolon),
            _ => None,
        } {
            i += 1;
            kind = TokenKind::Delimiter(d);
        } else {
            let (text, op) = OPERATORS
                .iter()
                .find(|(text, _)| source[i..].starts_with(text))
                .expect("the test source uses known operators");
            i += text.len();
            kind = TokenKind::Operator(*op);
        }
        let lexeme: String = chars[start..i].iter().collect();
        let width = i - start;
        tokens.push(Token {
            kind,
            lexeme,
            span: SourceSpan {
                start_byte: start,
                end_byte: i,
                start_line: line,
                start_col: col,
                end_line: line,
                end_col: col + width,
            },
        });
        col += width;
    }
    let end = SourceSpan { start_byte: i, end_byte: i, start_line: line, start_col: col, end_line: line, end_col: col };
    tokens.push(Token { kind: TokenKind::Eof, lexeme: String::new(), span: end });
    tokens
}

fn parse(source: &str) -> ParseOutput {
    parse_file("main.dyn".to_string(), &lex(source))
}

fn declaration_value(output: &ParseOutput, index: usize) -> &lib::ast::Expr {
    let file = output.ast.as_ref().expect("the file should parse");
    let Item::Declaration(decl) = &file.items[index];
    match &decl.value {
        DeclValue::Expr(expr) => expr,
        DeclValue::ExternSignature(_) => panic!("expected an expression value"),
    }
}

#[test]
fn parses_module_name_and_operator_precedence() {
    let output = parse("module demo\nx := 1 + 2 * 3\n");
    assert!(output.diagnostics.is_empty());
    let file = output.ast.as_ref().expect("the file should parse");
    assert_eq!(file.module_decl.name.text, "demo");
    assert_eq!(file.items.len(), 1);
    let Item::Declaration(decl) = &file.items[0];
    assert!(matches!(&decl.target, DeclTarget::Name(name) if name.text == "x"));
    match &declaration_value(&output, 0).kind {
        ExprKind::Binary { op: BinaryOp::Add, right, .. } => {
            assert!(matches!(right.kind, ExprKind::Binary { op: BinaryOp::Mul, .. }));
        },
        other => panic!("expected an addition, got {other:?}"),
    }
}

#[test]
fn files_without_module_declaration_are_module_main() {
    let output = parse("x := 1\n");
    let file = output.ast.as_ref().expect("the file should parse");
    assert_eq!(file.module_decl.name.text, "main");
}

#[test]
fn unreadable_module_declaration_gives_no_tree() {
    let output = parse("module (\n");
    assert!(output.ast.is_none());
    assert!(output.diagnostics.iter().any(|d| d.code == DiagnosticCode::E3001));
}

#[test]
fn reports_top_level_statements() {
    let output = parse("module main\n1 + 2\n");
    assert_eq!(output.diagnostics.len(), 1);
    assert_eq!(output.diagnostics[0].message, "top-level statements are not allowed");
    assert_eq!(output.diagnostics[0].phase, DiagnosticPhase::Parser);
    let label = output.diagnostics[0].primary_label.as_ref().expect("a label");
    assert_eq!(label.file, "main.dyn");
}

#[test]
fn reports_tokens_that_cannot_start_an_expression() {
    let output = parse("module main\nx := )\n");
    assert!(output
        .diagnostics
        .iter()
        .any(|d| d.code == DiagnosticCode::E3002 && d.message == "unexpected token in expression"));
}

#[test]
fn last_expression_of_a_block_is_its_value() {
    let output = parse("module main\nf := () i32 {\n  y := 1\n  y + 1\n}\n");
    assert!(output.diagnostics.is_empty(), "{:?}", output.diagnostics);
    match &declaration_value(&output, 0).kind {
        ExprKind::Fn(function) => match &function.body {
            FnBody::Block(block) => {
                assert_eq!(block.statements.len(), 1);
                assert!(matches!(block.tail_expr.as_deref().map(|e| &e.kind), Some(ExprKind::Binary { .. })));
            },
            other => panic!("expected a block body, got {other:?}"),
        },
        other => panic!("expected a function, got {other:?}"),
    }
}

#[test]
fn if_without_else_does_not_end_a_block() {
    let output = parse("module main\nf := () void {\n  if x { y }\n}\n");
    match &declaration_value(&output, 0).kind {
        ExprKind::Fn(function) => match &function.body {
            FnBody::Block(block) => {
                assert_eq!(block.statements.len(), 1);
                assert!(block.tail_expr.is_none());
            },
            other => panic!("expected a block body, got {other:?}"),
        },
        other => panic!("expected a function, got {other:?}"),
    }
}

#[test]
fn match_arm_with_several_patterns_gives_one_arm_each() {
    let output = parse("module main\nm := match v { 1, 2: 10, _: 0 }\n");
    assert!(output.diagnostics.is_empty(), "{:?}", output.diagnostics);
    match &declaration_value(&output, 0).kind {
        ExprKind::Match(m) => {
            assert_eq!(m.arms.len(), 3);
            assert!(matches!(m.arms[0].pattern.kind, PatternKind::Literal(_)));
            assert!(matches!(&m.arms[0].value.kind, ExprKind::Literal(Literal::Integer(t)) if t == "10"));
            assert!(matches!(&m.arms[1].value.kind, ExprKind::Literal(Literal::Integer(t)) if t == "10"));
            assert!(matches!(m.arms[2].pattern.kind, PatternKind::Wildcard));
        },
        other => panic!("expected a match, got {other:?}"),
    }
}

#[test]
fn reports_fat_arrow_in_match_arms() {
    let output = parse("module main\nm := match v { 1 => 2 }\n");
    assert!(output.diagnostics.iter().any(|d| d.message == "expected ':' after match pattern"));
}

#[test]
fn parses_range_loops_with_binding() {
    let output = parse("module main\nf := () void {\n  for 0..10: |i| { g(i) }\n}\n");
    assert!(output.diagnostics.is_empty(), "{:?}", output.diagnostics);
    match &declaration_value(&output, 0).kind {
        ExprKind::Fn(function) => match &function.body {
            FnBody::Block(block) => {
                let last = block.tail_expr.as_deref().expect("the loop is the block's value");
                assert!(matches!(&last.kind, ExprKind::For(ForExpr::Range { binding: Some(b), inclusive: false, .. }) if b.text == "i"));
            },
            other => panic!("expected a block body, got {other:?}"),
        },
        other => panic!("expected a function, got {other:?}"),
    }
}

#[test]
fn parses_calls_with_named_arguments() {
    let output = parse("module main\nx := f(1, b: 2)\n");
    assert!(output.diagnostics.is_empty(), "{:?}", output.diagnostics);
    match &declaration_value(&output, 0).kind {
        ExprKind::Call(call) => {
            assert_eq!(call.args.len(), 2);
            assert!(call.args[0].name.is_none());
            assert_eq!(call.args[1].name.as_ref().map(|n| n.text.as_str()), Some("b"));
        },
        other => panic!("expected a call, got {other:?}"),
    }
}

#[test]
fn reports_missing_commas_between_call_arguments() {
    let output = parse("module main\nx := f(1 2)\n");
    assert!(output.diagnostics.iter().any(|d| d.message == "expected ',' between call arguments"));
}

#[test]
fn parses_struct_literals_and_word_and_operator() {
    let output = parse("module main\np := Point{ x: 1, y }\nq := a and b\n");
    match &declaration_value(&output, 0).kind {
        ExprKind::StructLiteral(lit) => {
            assert_eq!(lit.root_type.as_ref().map(|r| r.text.as_str()), Some("Point"));
            assert_eq!(lit.fields.len(), 2);
        },
        other => panic!("expected a struct literal, got {other:?}"),
    }
    assert!(output.diagnostics.iter().any(|d| d.message == "word-form `and` operator is not supported"));
    assert!(matches!(declaration_value(&output, 1).kind, ExprKind::Binary { op: BinaryOp::LogicalAnd, .. }));
}

#[test]
fn parses_extern_bindings() {
    let output = parse("module main\nputs := extern (s: []u8) i32 = \"puts\"\n");
    assert!(output.diagnostics.is_empty(), "{:?}", output.diagnostics);
    let file = output.ast.as_ref().expect("the file should parse");
    let Item::Declaration(decl) = &file.items[0];
    assert!(matches!(decl.value, DeclValue::ExternSignature(_)));
    assert!(matches!(&decl.modifiers.linkage, lib::ast::Linkage::Extern { link_name: Some(n) } if n == "puts"));
}

#[test]
fn unescapes_string_and_char_literals() {
    assert_eq!(string_from_lexeme("\"a\\nb\\\"c\""), "a\nb\"c");
    assert_eq!(string_from_lexeme("\"tab\\t\\q\""), "tab\tq");
    assert_eq!(string_from_lexeme("plain"), "plain");
    assert_eq!(string_from_lexeme("\"end\\"), "\"end\\");
    assert_eq!(char_from_lexeme("'\\n'"), '\n');
    assert_eq!(char_from_lexeme("'x'"), 'x');
    assert_eq!(char_from_lexeme("''"), '\0');
}

#[test]
fn describes_tokens_for_diagnostics() {
    let span = SourceSpan { start_byte: 0, end_byte: 0, start_line: 1, start_col: 1, end_line: 1, end_col: 1 };
    let eof = Token { kind: TokenKind::Eof, lexeme: String::new(), span };
    assert_eq!(token_description(&eof), "end of file");
    let empty = Token { kind: TokenKind::Identifier, lexeme: String::new(), span };
    assert_eq!(token_description(&empty), "token");
    let quote = Token { kind: TokenKind::StringLiteral, lexeme: "\"a\tb\u{1}\"".to_string(), span };
    assert_eq!(token_description(&quote), "`\\\"a\\tb\\u{1}\\\"`");
}

#[test]
fn empty_token_list_gives_main_module_without_items_or_diagnostics() {
    let out = parse_file("empty.dyn".to_string(), &Vec::new());
    assert!(out.diagnostics.is_empty());
    let ast = out.ast.expect("an empty file reads as module main");
    assert!(ast.items.is_empty());
    assert_eq!(ast.module_decl.name.text, "main");
}

#[test]
fn a_declaration_is_dropped_only_with_a_diagnostic() {
    let good = parse("module m\nx := 1\ny: i32 = 2\n");
    assert!(good.diagnostics.is_empty());
    assert_eq!(good.ast.as_ref().unwrap().items.len(), 2);
    let bad = parse("module m\nx := )\n");
    assert!(!bad.diagnostics.is_empty());
}

#[test]
fn primary_forms_give_their_expression_kinds() {
    let output = parse("module m\na := [1, 2]\nb := .Red\nc := Point{ x: 1 }\n");
    assert!(matches!(declaration_value(&output, 0).kind, ExprKind::ArrayLiteral(_)));
    assert!(matches!(&declaration_value(&output, 1).kind, ExprKind::EnumVariantConstruct(v) if v.variant.text == "Red" && v.root.is_none()));
    assert!(matches!(&declaration_value(&output, 2).kind, ExprKind::StructLiteral(s) if s.root_type.as_ref().map(|n| n.text.as_str()) == Some("Point")));
}

#[test]
fn a_clean_file_keeps_every_declaration_in_order() {
    let output = parse("module m\na := 1\npub b: i32 = 2\nmut c := a\n");
    assert!(output.diagnostics.is_empty());
    let file = output.ast.as_ref().expect("tree");
    let names: Vec<String> = file
        .items
        .iter()
        .map(|item| match item {
            Item::Declaration(d) => match &d.target {
                DeclTarget::Name(n) => n.text.clone(),
                _ => String::new(),
            },
        })
        .collect();
    assert_eq!(names, vec!["a".to_string(), "b".to_string(), "c".to_string()]);
}

#[test]
fn empty_and_filled_array_and_tuple_literals() {
    let output = parse("module m\na := []\nb := [1, 2, 3]\nc := .{}\nd := .{1, 2}\n");
    assert!(output.diagnostics.is_empty());
    assert!(matches!(&declaration_value(&output, 0).kind, ExprKind::ArrayLiteral(v) if v.is_empty()));
    assert!(matches!(&declaration_value(&output, 1).kind, ExprKind::ArrayLiteral(v) if v.len() == 3));
    assert!(matches!(&declaration_value(&output, 2).kind, ExprKind::TupleLiteral(v) if v.is_empty()));
    assert!(matches!(&declaration_value(&output, 3).kind, ExprKind::TupleLiteral(v) if v.len() == 2));
}

#[test]
fn type_annotation_is_present_exactly_for_typed_bindings() {
    let output = parse("module m\na := 1\nb: i32 = 2\nc = 3\n");
    assert!(output.diagnostics.is_empty());
    let file = output.ast.as_ref().expect("tree");
    let annotated: Vec<bool> = file
        .items
        .iter()
        .map(|item| match item {
            Item::Declaration(d) => d.annotation.is_some(),
        })
        .collect();
    assert_eq!(annotated, vec![false, true, false]);
}
