use lib::hir::{HirExpr, HirExprKind, HirLiteral};
use lib::lower_helpers::{builtin_offsetof_value, layout_for_builtin_type_name, literal_type, parse_type_hint};
use lib::mir::MirValueType;
use lib::span::SourceSpan;

fn span() -> SourceSpan {
    SourceSpan { start_byte: 0, end_byte: 0, start_line: 1, start_col: 1, end_line: 1, end_col: 1 }
}

#[test]
fn computes_layout_for_struct_type_literal_name() {
    let (size, align) = layout_for_builtin_type_name("struct{a:u8,b:i32,c:u8}");
    assert_eq!(size, 12);
    assert_eq!(align, 4);
}

#[test]
fn computes_offsetof_for_struct_field_name_and_index() {
    let type_arg = HirExpr { span: span(), kind: HirExprKind::TypeLiteral("struct{a:u8,b:i32,c:u8}".to_string()) };
    let by_name = HirExpr { span: span(), kind: HirExprKind::Ident("b".to_string()) };
    let by_index = HirExpr { span: span(), kind: HirExprKind::Literal(HirLiteral::Integer("1".to_string())) };
    let named: Vec<(String, String)> = Vec::new();
    assert_eq!(builtin_offsetof_value(&type_arg, &by_name, &named), Some(4));
    assert_eq!(builtin_offsetof_value(&type_arg, &by_index, &named), Some(4));
}

#[test]
fn infers_mir_types_for_string_and_null_literals() {
    assert_eq!(literal_type(&HirLiteral::String("\"hi\"".to_string())), MirValueType::BytesSlice);
    assert_eq!(literal_type(&HirLiteral::Null), MirValueType::Int { signed: false, bits: 64 });
}

#[test]
fn parses_slice_and_opaque_type_hints() {
    assert_eq!(parse_type_hint("[]u8"), MirValueType::BytesSlice);
    assert_eq!(parse_type_hint("opaque"), MirValueType::Int { signed: false, bits: 64 });
}

#[test]
fn parses_nonstandard_int_and_float_type_hints() {
    assert_eq!(parse_type_hint("i31"), MirValueType::Int { signed: true, bits: 31 });
    assert_eq!(parse_type_hint("u7"), MirValueType::Int { signed: false, bits: 7 });
    assert_eq!(parse_type_hint("f128"), MirValueType::Float { bits: 128 });
}

use lib::ast::BinaryOp;
use lib::lower_helpers::{
    comptime_truthy, enum_type_has_payload, enum_type_repr_bits, enum_type_variants, eval_comptime_binary,
    eval_comptime_cast, has_struct_field, merge_types, parse_function_return_hint, parse_i64_literal,
    self_type_literal_from_param_hint, struct_field_names_with_types, substitute_type_locals, type_literal_name_for_ident,
    type_name_to_class, ComptimeValue,
};

fn int_value(text: &str) -> ComptimeValue {
    ComptimeValue::Literal(HirLiteral::Integer(text.to_string()))
}

fn boolean(b: bool) -> ComptimeValue {
    ComptimeValue::Literal(HirLiteral::Bool(b))
}

fn int_text(v: Option<ComptimeValue>) -> Option<String> {
    match v {
        Some(ComptimeValue::Literal(HirLiteral::Integer(t))) => Some(t),
        _ => None,
    }
}

fn bool_value(v: Option<ComptimeValue>) -> Option<bool> {
    match v {
        Some(ComptimeValue::Literal(HirLiteral::Bool(b))) => Some(b),
        _ => None,
    }
}

#[test]
fn comptime_integer_arithmetic_is_exact() {
    assert_eq!(int_text(eval_comptime_binary(BinaryOp::Add, int_value("2"), int_value("3"))), Some("5".to_string()));
    assert_eq!(int_text(eval_comptime_binary(BinaryOp::Sub, int_value("2"), int_value("9"))), Some("-7".to_string()));
    assert_eq!(int_text(eval_comptime_binary(BinaryOp::Mul, int_value("1_6"), int_value("3"))), Some("48".to_string()));
    assert!(eval_comptime_binary(BinaryOp::Mul, int_value("0x10"), int_value("3")).is_none());
    assert_eq!(int_text(eval_comptime_binary(BinaryOp::Div, int_value("-7"), int_value("2"))), Some("-3".to_string()));
    assert_eq!(int_text(eval_comptime_binary(BinaryOp::Mod, int_value("-7"), int_value("2"))), Some("-1".to_string()));
    assert_eq!(int_text(eval_comptime_binary(BinaryOp::Shl, int_value("1"), int_value("4"))), Some("16".to_string()));
    assert_eq!(int_text(eval_comptime_binary(BinaryOp::BitXor, int_value("6"), int_value("3"))), Some("5".to_string()));
}

#[test]
fn comptime_division_by_zero_and_negative_shifts_fail() {
    assert!(eval_comptime_binary(BinaryOp::Div, int_value("1"), int_value("0")).is_none());
    assert!(eval_comptime_binary(BinaryOp::Mod, int_value("1"), int_value("0")).is_none());
    assert!(eval_comptime_binary(BinaryOp::Shr, int_value("8"), int_value("-1")).is_none());
    assert!(eval_comptime_binary(BinaryOp::Add, int_value("1"), boolean(true)).is_none());
}

#[test]
fn comptime_comparisons_give_booleans() {
    assert_eq!(bool_value(eval_comptime_binary(BinaryOp::Lt, int_value("1"), int_value("2"))), Some(true));
    assert_eq!(bool_value(eval_comptime_binary(BinaryOp::LogicalAnd, boolean(true), boolean(false))), Some(false));
    let t = |s: &str| ComptimeValue::Type(s.to_string());
    assert_eq!(bool_value(eval_comptime_binary(BinaryOp::Eq, t("u8"), t("u8"))), Some(true));
    assert_eq!(bool_value(eval_comptime_binary(BinaryOp::Ne, t("u8"), t("i8"))), Some(true));
    assert!(eval_comptime_binary(BinaryOp::Lt, t("u8"), t("i8")).is_none());
}

#[test]
fn comptime_casts_reinterpret_integers() {
    assert_eq!(int_text(eval_comptime_cast("u64", int_value("-1"))), Some("18446744073709551615".to_string()));
    assert_eq!(int_text(eval_comptime_cast("i64", int_value("3_1"))), Some("31".to_string()));
    assert_eq!(bool_value(eval_comptime_cast("u1", boolean(true))), Some(true));
    assert_eq!(int_text(eval_comptime_cast("f32", int_value("7"))), Some("7".to_string()));
    assert!(eval_comptime_cast("u32", int_value("zz")).is_none());
}

#[test]
fn comptime_truth_of_values() {
    assert_eq!(comptime_truthy(&int_value("0")), Some(false));
    assert_eq!(comptime_truthy(&int_value("3")), Some(true));
    assert_eq!(comptime_truthy(&int_value("oops")), Some(false));
    assert_eq!(comptime_truthy(&ComptimeValue::Literal(HirLiteral::Null)), Some(false));
    assert_eq!(comptime_truthy(&ComptimeValue::Literal(HirLiteral::String(String::new()))), Some(false));
    assert_eq!(comptime_truthy(&ComptimeValue::Literal(HirLiteral::Char('\0'))), Some(false));
    assert_eq!(comptime_truthy(&ComptimeValue::Type("u8".to_string())), Some(true));
    assert_eq!(comptime_truthy(&ComptimeValue::Literal(HirLiteral::Float("0.5".to_string()))), None);
}

#[test]
fn type_names_fall_into_classes() {
    assert_eq!(type_name_to_class("usize"), "uint");
    assert_eq!(type_name_to_class("i16"), "sint");
    assert_eq!(type_name_to_class("f32"), "float");
    assert_eq!(type_name_to_class("u1"), "bool-class");
    assert_eq!(type_name_to_class("[]u8"), "bytes");
    assert_eq!(type_name_to_class("Point"), "struct");
}

#[test]
fn self_types_drop_pointer_prefixes() {
    assert_eq!(self_type_literal_from_param_hint(" *mut Foo "), "Foo");
    assert_eq!(self_type_literal_from_param_hint("* Bar"), "Bar");
    assert_eq!(self_type_literal_from_param_hint("Baz"), "Baz");
}

#[test]
fn type_locals_are_substituted_by_identifier() {
    let locals = vec![("T".to_string(), ComptimeValue::Type("i32".to_string())), ("N".to_string(), int_value("4"))];
    assert_eq!(substitute_type_locals("struct{a:T,b:[]T,c:N,TT:T}", &locals), "struct{a:i32,b:[]i32,c:N,TT:i32}");
}

#[test]
fn type_literal_names_resolve_through_named_literals() {
    let named = vec![("Point".to_string(), "struct{x:i32,y:i32}".to_string())];
    assert_eq!(type_literal_name_for_ident(&"Point".to_string(), &named), Some("struct{x:i32,y:i32}".to_string()));
    assert_eq!(type_literal_name_for_ident(&"u16".to_string(), &named), Some("u16".to_string()));
    assert_eq!(type_literal_name_for_ident(&"any".to_string(), &named), Some("any".to_string()));
    assert_eq!(type_literal_name_for_ident(&"value".to_string(), &named), None);
}

#[test]
fn function_hints_give_return_types() {
    assert_eq!(parse_function_return_hint("fn(i32) -> u1"), Some(MirValueType::Bool));
    assert_eq!(parse_function_return_hint("fn(i32) -> bool"), None);
    assert_eq!(parse_function_return_hint("(a: i32) -> Point"), None);
    assert_eq!(parse_function_return_hint("i32"), None);
}

#[test]
fn integer_literal_text_allows_underscores() {
    assert_eq!(parse_i64_literal("1_000_000"), Some(1_000_000));
    assert_eq!(parse_i64_literal("-9223372036854775808"), Some(i64::MIN));
    assert_eq!(parse_i64_literal("9223372036854775808"), None);
}

#[test]
fn merged_types_widen_integers() {
    let a = MirValueType::Int { signed: false, bits: 8 };
    let b = MirValueType::Int { signed: true, bits: 32 };
    assert_eq!(merge_types(&a, &b), MirValueType::Int { signed: true, bits: 32 });
    assert_eq!(merge_types(&MirValueType::Unknown, &a), a);
    assert_eq!(merge_types(&MirValueType::Bool, &a), MirValueType::Unknown);
    assert_eq!(merge_types(&b, &a), merge_types(&a, &b));
    let f = MirValueType::Float { bits: 32 };
    assert_eq!(merge_types(&f, &MirValueType::Float { bits: 64 }), merge_types(&MirValueType::Float { bits: 64 }, &f));
}

#[test]
fn enum_descriptors_give_width_and_variants() {
    assert_eq!(enum_type_repr_bits("enum(u8){A,B}"), Some(8));
    assert_eq!(enum_type_repr_bits("enum{A}"), Some(32));
    assert_eq!(enum_type_repr_bits("struct{a:u8}"), None);
    assert_eq!(enum_type_variants("enum{Red, Green ,Blue}"), Some(vec!["Red".to_string(), "Green".to_string(), "Blue".to_string()]));
    assert_eq!(enum_type_has_payload("enum{A,B:i32}"), Some(true));
    assert_eq!(enum_type_has_payload("enum{A,B}"), Some(false));
}

#[test]
fn struct_descriptors_list_their_fields() {
    assert!(has_struct_field("struct{a:u8,b:i32}", "b"));
    assert!(!has_struct_field("struct{a:u8,b:i32}", "c"));
    assert_eq!(
        struct_field_names_with_types("struct{a:u8, b:[]u8}"),
        vec![("a".to_string(), "u8".to_string()), ("b".to_string(), "[]u8".to_string())]
    );
    assert!(struct_field_names_with_types("enum{A}").is_empty());
}

#[test]
fn type_hint_ignores_leading_question_mark_and_error_set() {
    assert_eq!(parse_type_hint("?i32"), parse_type_hint("i32"));
    assert_eq!(parse_type_hint("u8!IoError"), parse_type_hint("u8"));
    assert_eq!(parse_type_hint("?[]u8"), MirValueType::BytesSlice);
}

#[test]
fn struct_layout_size_is_a_multiple_of_its_alignment() {
    for name in ["struct{a:u8,b:i32,c:u8}", "struct{a:u16,b:u8}", "u1", "[]u8", "struct{x:i64,y:u8}"] {
        let (size, align) = layout_for_builtin_type_name(name);
        assert!(align == 1 || align == 2 || align == 4 || align == 8);
        assert_eq!(size % align, 0);
    }
}

#[test]
fn type_hint_error_set_text_is_ignored_whatever_it_holds() {
    assert_eq!(parse_type_hint("i32!Io Error  "), parse_type_hint("i32"));
    assert_eq!(parse_type_hint("u16!"), parse_type_hint("u16"));
}

#[test]
fn primitive_and_empty_struct_layouts() {
    assert_eq!(layout_for_builtin_type_name("[]u8"), (16, 8));
    assert_eq!(layout_for_builtin_type_name("*u8"), (8, 8));
    assert_eq!(layout_for_builtin_type_name("Unknown"), (8, 8));
    assert_eq!(layout_for_builtin_type_name("struct{}"), (0, 1));
}
