use lib::ast::{AssignOp, BinaryOp};
use lib::hir::{HirExpr, HirExprKind, HirLiteral, HirMatchArm, HirPattern};
use lib::lower_analysis::{
    allows_non_i32_main_implicit_success, assign_to_binary_op, collect_enum_type_metadata, comptime_pattern_matches,
    contains_disallowed_inline_flow_hir, extract_inline_function_body, find_comptime_match_arm, has_or_return_tail,
    module_key_source_path, normalize_inline_hir_body, qualified_function_name, return_hint_is_errorable_aggregate,
    return_hint_is_void_like,
};
use lib::lower_helpers::ComptimeValue;
use lib::module_resolver::{ModuleId, ModuleKey};
use lib::name_set::NameSet;
use lib::scope_analysis::{assigned_local_names, collect_free_vars};
use lib::span::SourceSpan;

fn span() -> SourceSpan {
    SourceSpan { start_byte: 0, end_byte: 0, start_line: 1, start_col: 1, end_line: 1, end_col: 1 }
}

fn expr(kind: HirExprKind) -> HirExpr {
    HirExpr { span: span(), kind }
}

fn ident(name: &str) -> HirExpr {
    expr(HirExprKind::Ident(name.to_string()))
}

fn int_lit(text: &str) -> HirExpr {
    expr(HirExprKind::Literal(HirLiteral::Integer(text.to_string())))
}

fn binary(left: HirExpr, right: HirExpr) -> HirExpr {
    expr(HirExprKind::Binary { op: BinaryOp::Add, left: Box::new(left), right: Box::new(right) })
}

fn assign(op: AssignOp, target: HirExpr, value: HirExpr) -> HirExpr {
    expr(HirExprKind::Assign { op, target: Box::new(target), value: Box::new(value) })
}

fn function(params: &[&str], body: HirExpr) -> HirExpr {
    expr(HirExprKind::Function {
        params: params.iter().map(|p| p.to_string()).collect(),
        param_types: params.iter().map(|_| None).collect(),
        param_defaults: params.iter().map(|_| None).collect(),
        has_explicit_return_type: false,
        body: Box::new(body),
    })
}

fn key(directory: &[&str], name: &str) -> ModuleKey {
    ModuleKey { directory: directory.iter().map(|p| p.to_string()).collect(), module_name: name.to_string() }
}

#[test]
fn lambda_captures_only_outside_names() {
    let body = expr(HirExprKind::Block {
        body: vec![
            expr(HirExprKind::Let { name: "t".to_string(), mutable: false, value: Box::new(binary(ident("x"), ident("y"))) }),
            binary(ident("t"), ident("z")),
        ],
    });
    let lambda = function(&["x"], body);
    let mut bound = NameSet::new();
    bound.insert("z".to_string());
    let free = collect_free_vars(&lambda, &bound).to_vec();
    assert_eq!(free, vec!["y".to_string()]);
}

#[test]
fn names_bound_before_use_in_a_block_are_not_free() {
    let block = expr(HirExprKind::Block {
        body: vec![
            ident("a"),
            expr(HirExprKind::Let { name: "a".to_string(), mutable: false, value: Box::new(int_lit("1")) }),
            ident("a"),
            ident("b"),
        ],
    });
    let free = collect_free_vars(&block, &NameSet::new()).to_vec();
    assert_eq!(free, vec!["a".to_string(), "b".to_string()]);
}

#[test]
fn assigned_locals_are_sorted_and_unique() {
    let block = expr(HirExprKind::Block {
        body: vec![
            assign(AssignOp::Assign, ident("y"), int_lit("1")),
            assign(
                AssignOp::AddAssign,
                expr(HirExprKind::FieldAccess { base: Box::new(ident("p")), field: "f".to_string() }),
                int_lit("2"),
            ),
            assign(AssignOp::AddAssign, ident("x"), int_lit("3")),
            assign(AssignOp::Assign, ident("y"), int_lit("4")),
        ],
    });
    assert_eq!(assigned_local_names(&block), vec!["x".to_string(), "y".to_string()]);
}

#[test]
fn names_functions_and_source_paths_of_modules() {
    assert_eq!(qualified_function_name(ModuleId(3), "main"), "#3::main");
    assert_eq!(module_key_source_path(&key(&["a", "b"], "m")), "a/b/m.dyn");
    assert_eq!(module_key_source_path(&key(&[], "m")), "m.dyn");
}

#[test]
fn classifies_return_hints() {
    assert!(return_hint_is_void_like("(x: i32) -> void"));
    assert!(return_hint_is_void_like(" ! "));
    assert!(!return_hint_is_void_like("i32"));
    assert!(return_hint_is_errorable_aggregate("struct{a:i32}!Err"));
    assert!(!return_hint_is_errorable_aggregate("i32!Err"));
    assert!(!return_hint_is_errorable_aggregate("struct{a:i32}"));
    assert!(allows_non_i32_main_implicit_success(&key(&[], "main"), "main", Some("void")));
    assert!(!allows_non_i32_main_implicit_success(&key(&[], "main"), "main", Some("i32")));
    assert!(!allows_non_i32_main_implicit_success(&key(&[], "util"), "main", Some("void")));
    assert!(!allows_non_i32_main_implicit_success(&key(&[], "main"), "main", None));
}

#[test]
fn maps_compound_assignments_to_binary_operators() {
    assert_eq!(assign_to_binary_op(AssignOp::Assign), None);
    assert_eq!(assign_to_binary_op(AssignOp::ShlAssign), Some(BinaryOp::Shl));
    assert_eq!(assign_to_binary_op(AssignOp::ModAssign), Some(BinaryOp::Mod));
}

#[test]
fn finds_inline_bodies_and_rejects_jumps() {
    let f = expr(HirExprKind::Inline { expr: Box::new(function(&["a"], ident("a"))) });
    let (params, body) = extract_inline_function_body(&f).expect("an inline function");
    assert_eq!(params, &vec!["a".to_string()]);
    assert_eq!(body.kind, HirExprKind::Ident("a".to_string()));
    assert!(extract_inline_function_body(&ident("a")).is_none());
    let with_return = expr(HirExprKind::Block {
        body: vec![ident("a"), expr(HirExprKind::Return { value: Some(Box::new(int_lit("1"))) })],
    });
    assert!(contains_disallowed_inline_flow_hir(&with_return));
    assert!(!contains_disallowed_inline_flow_hir(&binary(ident("a"), int_lit("1"))));
    let normalized = normalize_inline_hir_body(with_return);
    match normalized.kind {
        HirExprKind::Block { body } => {
            assert_eq!(body.len(), 2);
            assert_eq!(body[1].kind, HirExprKind::Literal(HirLiteral::Integer("1".to_string())));
        },
        other => panic!("expected a block, got {other:?}"),
    }
}

#[test]
fn recognizes_or_return_tails() {
    let or_return = expr(HirExprKind::OrElse {
        value: Box::new(ident("v")),
        error_binding: None,
        fallback: Box::new(expr(HirExprKind::Return { value: None })),
    });
    let block = expr(HirExprKind::Block { body: vec![ident("a"), or_return] });
    assert!(has_or_return_tail(&block));
    assert!(!has_or_return_tail(&ident("a")));
}

#[test]
fn matches_compile_time_values_against_patterns() {
    let ty = ComptimeValue::Type("i32".to_string());
    assert!(comptime_pattern_matches(&ty, &HirPattern::TypeLiteral("i32".to_string())));
    assert!(comptime_pattern_matches(&ty, &HirPattern::IdentBind("i32".to_string())));
    assert!(!comptime_pattern_matches(&ty, &HirPattern::TypeLiteral("u8".to_string())));
    let one = ComptimeValue::Literal(HirLiteral::Integer("1".to_string()));
    assert!(comptime_pattern_matches(&one, &HirPattern::Literal(HirLiteral::Integer("1".to_string()))));
    assert!(!comptime_pattern_matches(&one, &HirPattern::Literal(HirLiteral::Bool(true))));
    let arms = vec![
        HirMatchArm { pattern: HirPattern::Literal(HirLiteral::Integer("2".to_string())), guard: None, value: int_lit("20") },
        HirMatchArm { pattern: HirPattern::Wildcard, guard: None, value: int_lit("0") },
    ];
    let arm = find_comptime_match_arm(&one, &arms).expect("the wildcard matches");
    assert_eq!(arm.value.kind, HirExprKind::Literal(HirLiteral::Integer("0".to_string())));
}

#[test]
fn collects_enum_tag_widths_and_variant_tags() {
    let named = vec![
        ("Color".to_string(), "enum(u8){Red,Green:i32}".to_string()),
        ("Point".to_string(), "struct{x:i32}".to_string()),
        ("Flag".to_string(), "enum{On}".to_string()),
    ];
    let (bits, tags) = collect_enum_type_metadata(&named);
    assert_eq!(bits, vec![("Color".to_string(), 8), ("Flag".to_string(), 32)]);
    assert_eq!(tags[0].0, "Color");
    assert_eq!(tags[0].1, vec![("Red".to_string(), 1), ("Green".to_string(), 2)]);
    assert_eq!(tags[1].1, vec![("On".to_string(), 1)]);
}

#[test]
fn repeated_variants_and_enums_keep_their_last_listing() {
    let named = vec![
        ("Dup".to_string(), "enum{A,B,A}".to_string()),
        ("Dup".to_string(), "enum(u16){X}".to_string()),
        ("Other".to_string(), "enum{A,B,A}".to_string()),
    ];
    let (bits, tags) = collect_enum_type_metadata(&named);
    assert_eq!(bits, vec![("Dup".to_string(), 16), ("Other".to_string(), 32)]);
    assert_eq!(tags[0], ("Dup".to_string(), vec![("X".to_string(), 1)]));
    assert_eq!(tags[1], ("Other".to_string(), vec![("A".to_string(), 3), ("B".to_string(), 2)]));
}
