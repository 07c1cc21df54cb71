use lib::ast::{AssignOp, BinaryOp};
use lib::diagnostics::DiagnosticCode;
use lib::function_lowerer::{BuildTarget, FunctionLowerer, FunctionLowererShared};
use lib::hir::{HirExpr, HirExprKind, HirLiteral, HirPattern};
use lib::lower_helpers::ComptimeValue;
use lib::mir::{
    MirBlockId, MirInstr, MirModule, MirProgram, MirTerminator, MirValue, MirValueId, MirValueType,
};
use lib::mir_verify::verify_mir_program;
use lib::module_resolver::{ModuleId, ModuleKey};
use lib::span::SourceSpan;

fn span() -> SourceSpan {
    SourceSpan { start_byte: 0, end_byte: 0, start_line: 1, start_col: 1, end_line: 1, end_col: 1 }
}

fn expr(kind: HirExprKind) -> HirExpr {
    HirExpr { span: span(), kind }
}

fn ident(name: &str) -> HirExpr {
    expr(HirExprKind::Ident(name.to_string()))
}

fn key(directory: &[&str], name: &str) -> ModuleKey {
    ModuleKey { directory: directory.iter().map(|p| p.to_string()).collect(), module_name: name.to_string() }
}

fn empty_shared() -> FunctionLowererShared {
    FunctionLowererShared {
        named_type_literals: Vec::new(),
        build_target: BuildTarget { sanitize: false, mode: 0, arch: 0, os: 0 },
        function_return_types: Vec::new(),
        function_return_hints: Vec::new(),
        function_param_type_hints: Vec::new(),
        enum_repr_bits_by_name: Vec::new(),
        enum_variant_tags_by_name: Vec::new(),
        function_exprs: Vec::new(),
        module_ids_by_key: Vec::new(),
        module_exports_by_id: Vec::new(),
    }
}

fn lowerer() -> FunctionLowerer {
    FunctionLowerer::new(key(&[], "main"), "main.dyn".to_string(), "f".to_string(), empty_shared())
}

fn int32() -> MirValueType {
    MirValueType::Int { signed: true, bits: 32 }
}

fn int_literal(l: &mut FunctionLowerer, block: MirBlockId, text: &str) -> MirValueId {
    l.push_eval(block, MirValue::Literal(HirLiteral::Integer(text.to_string())), int32())
}

#[test]
fn new_lowerer_starts_with_one_open_entry_block() {
    let l = lowerer();
    assert_eq!(l.function.name, "f");
    assert_eq!(l.function.blocks.len(), 1);
    assert_eq!(l.function.entry, MirBlockId(0));
    assert!(l.function.blocks[0].instructions.is_empty());
    assert!(!l.is_terminated(MirBlockId(0)));
    assert_eq!(l.next_value, 0);
}

#[test]
fn push_eval_numbers_values_in_order_and_records_them() {
    let mut l = lowerer();
    let a = int_literal(&mut l, MirBlockId(0), "1");
    let b = int_literal(&mut l, MirBlockId(0), "2");
    let sum = l.push_eval(MirBlockId(0), MirValue::Binary { op: BinaryOp::Add, left: a, right: b }, int32());
    assert_eq!((a, b, sum), (MirValueId(0), MirValueId(1), MirValueId(2)));
    assert_eq!(l.function.blocks[0].instructions.len(), 3);
    assert_eq!(l.value_type(sum), Some(int32()));
    assert_eq!(l.value_type(MirValueId(7)), None);
    assert!(matches!(l.value_def(sum), Some(MirValue::Binary { op: BinaryOp::Add, .. })));
}

#[test]
fn new_block_is_numbered_by_position() {
    let mut l = lowerer();
    let b1 = l.new_block();
    let b2 = l.new_block();
    assert_eq!((b1, b2), (MirBlockId(1), MirBlockId(2)));
    assert_eq!(l.function.blocks[2].id, MirBlockId(2));
}

#[test]
fn goto_is_set_only_on_open_blocks() {
    let mut l = lowerer();
    let b1 = l.new_block();
    let b2 = l.new_block();
    l.set_terminator(MirBlockId(0), MirTerminator::Goto(b1));
    l.set_goto_if_not_terminated(MirBlockId(0), b2);
    l.set_goto_if_not_terminated(b1, b2);
    assert_eq!(l.function.blocks[0].terminator, Some(MirTerminator::Goto(b1)));
    assert_eq!(l.function.blocks[1].terminator, Some(MirTerminator::Goto(b2)));
}

#[test]
fn restoring_a_saved_binding_undoes_it() {
    let mut l = lowerer();
    let a = int_literal(&mut l, MirBlockId(0), "1");
    let b = int_literal(&mut l, MirBlockId(0), "2");
    let outer = l.save_local_binding("x", a);
    assert_eq!(outer, ("x".to_string(), None));
    let inner = l.save_local_binding("x", b);
    assert_eq!(inner, ("x".to_string(), Some(a)));
    assert_eq!(l.get_local("x"), Some(b));
    l.restore_saved_local_binding(inner);
    assert_eq!(l.get_local("x"), Some(a));
    l.restore_saved_local_binding(outer);
    assert_eq!(l.get_local("x"), None);
}

#[test]
fn restore_local_bindings_applies_in_order() {
    let mut l = lowerer();
    let a = int_literal(&mut l, MirBlockId(0), "1");
    let b = int_literal(&mut l, MirBlockId(0), "2");
    l.save_local_binding("y", a);
    l.restore_local_bindings(vec![("x".to_string(), Some(a)), ("y".to_string(), None), ("x".to_string(), Some(b))]);
    assert_eq!(l.get_local("x"), Some(b));
    assert_eq!(l.get_local("y"), None);
}

#[test]
fn integer_literals_are_read_in_their_base() {
    let mut l = lowerer();
    let cases = [
        ("0x1F", Some(31)),
        ("1_000", Some(1000)),
        ("0b101", Some(5)),
        ("0o17", Some(15)),
        ("-42", Some(-42)),
        ("0x-10", Some(-16)),
        ("9223372036854775808", None),
        ("abc", None),
        ("0x", None),
    ];
    for (text, expected) in cases {
        let v = int_literal(&mut l, MirBlockId(0), text);
        assert_eq!(l.literal_int_value(v), expected, "{text}");
    }
    let flag = l.push_eval(MirBlockId(0), MirValue::Literal(HirLiteral::Bool(true)), MirValueType::Bool);
    assert_eq!(l.literal_int_value(flag), None);
}

#[test]
fn anonymous_variant_tags_are_fnv1a_hashes() {
    let l = lowerer();
    assert_eq!(l.anonymous_variant_tag_for("A"), (3289118412, 32));
    assert_eq!(l.anonymous_variant_tag_for("Some"), (1938647185, 32));
    assert_eq!(l.anonymous_variant_tag_for(""), (2166136261, 32));
}

#[test]
fn enum_tags_come_from_the_module_tables() {
    let mut shared = empty_shared();
    shared.enum_repr_bits_by_name = vec![("Color".to_string(), 8)];
    shared.enum_variant_tags_by_name = vec![
        ("Color".to_string(), vec![("Red".to_string(), 1), ("Green".to_string(), 2)]),
        ("Shape".to_string(), vec![("Circle".to_string(), 1)]),
    ];
    let l = FunctionLowerer::new(key(&[], "main"), "main.dyn".to_string(), "f".to_string(), shared);
    assert_eq!(l.enum_tag_and_bits_for_variant(Some("Color"), "Green"), Some((2, 8)));
    assert_eq!(l.enum_tag_and_bits_for_variant(Some("Shape"), "Circle"), Some((1, 32)));
    assert_eq!(l.enum_tag_and_bits_for_variant(Some("Color"), "Blue"), None);
    assert_eq!(l.enum_tag_and_bits_for_variant(None, "Red"), None);
}

#[test]
fn loop_break_values_merge_into_a_phi() {
    let mut l = lowerer();
    let exit = l.new_block();
    assert_eq!(l.build_loop_break_value(exit, Vec::new()), None);
    let a = int_literal(&mut l, MirBlockId(0), "1");
    assert_eq!(l.build_loop_break_value(exit, vec![(MirBlockId(0), a)]), Some(a));
    let b = l.push_eval(
        MirBlockId(0),
        MirValue::Literal(HirLiteral::Integer("2".to_string())),
        MirValueType::Int { signed: false, bits: 64 },
    );
    let phi = l.build_loop_break_value(exit, vec![(MirBlockId(0), a), (MirBlockId(0), b)]).unwrap();
    assert_eq!(phi, MirValueId(2));
    assert_eq!(l.value_type(phi), Some(MirValueType::Int { signed: true, bits: 64 }));
    match &l.function.blocks[1].instructions[0] {
        MirInstr::Phi { dest, sources, ty } => {
            assert_eq!(*dest, phi);
            assert_eq!(sources, &vec![(MirBlockId(0), a), (MirBlockId(0), b)]);
            assert_eq!(*ty, MirValueType::Int { signed: true, bits: 64 });
        },
        other => panic!("expected a phi, got {other:?}"),
    }
}

#[test]
fn finishing_a_loop_pops_its_context() {
    let mut l = lowerer();
    let exit = l.new_block();
    l.push_loop_context(MirBlockId(0), exit);
    assert_eq!(l.loop_stack.len(), 1);
    assert_eq!(l.finish_loop(exit), (exit, None));
    assert!(l.loop_stack.is_empty());
}

#[test]
fn loop_carried_locals_get_phis_closed_by_the_back_edge() {
    let mut l = lowerer();
    let header = l.new_block();
    let body_block = l.new_block();
    let x0 = int_literal(&mut l, MirBlockId(0), "0");
    let y0 = int_literal(&mut l, MirBlockId(0), "5");
    l.save_local_binding("x", x0);
    l.save_local_binding("y", y0);
    let body = expr(HirExprKind::Block {
        body: vec![
            expr(HirExprKind::Assign {
                op: AssignOp::AddAssign,
                target: Box::new(ident("x")),
                value: Box::new(ident("y")),
            }),
            expr(HirExprKind::Assign {
                op: AssignOp::Assign,
                target: Box::new(ident("z")),
                value: Box::new(ident("y")),
            }),
        ],
    });
    let carried = l.prepare_loop_carried_locals(header, MirBlockId(0), &body);
    assert_eq!(carried, vec![("x".to_string(), MirValueId(2))]);
    assert_eq!(l.get_local("x"), Some(MirValueId(2)));
    assert_eq!(l.value_type(MirValueId(2)), Some(int32()));
    let x1 = l.push_eval(body_block, MirValue::Binary { op: BinaryOp::Add, left: MirValueId(2), right: y0 }, int32());
    l.save_local_binding("x", x1);
    l.finalize_loop_carried_locals(header, body_block, &carried);
    assert_eq!(l.get_local("x"), Some(MirValueId(2)));
    match &l.function.blocks[1].instructions[0] {
        MirInstr::Phi { sources, .. } => assert_eq!(sources, &vec![(MirBlockId(0), x0), (body_block, x1)]),
        other => panic!("expected a phi, got {other:?}"),
    }
    l.append_loop_phi_source(header, body_block, x0);
    match &l.function.blocks[1].instructions[0] {
        MirInstr::Phi { sources, .. } => assert_eq!(sources.len(), 3),
        other => panic!("expected a phi, got {other:?}"),
    }
}

#[test]
fn enum_pattern_bindings_read_unknown_payloads_by_index() {
    let mut l = lowerer();
    let scrutinee = int_literal(&mut l, MirBlockId(0), "0");
    let pattern = HirPattern::EnumVariant {
        root: None,
        variant: "Pair".to_string(),
        bindings: vec!["a".to_string(), "_".to_string(), "b".to_string()],
    };
    let (block, bindings) = l.pattern_binding_values(MirBlockId(0), scrutinee, &pattern);
    assert_eq!(block, MirBlockId(0));
    assert_eq!(bindings, vec![("a".to_string(), MirValueId(2)), ("b".to_string(), MirValueId(4))]);
    let ins = &l.function.blocks[0].instructions;
    assert_eq!(ins.len(), 5);
    match &ins[3] {
        MirInstr::Eval { value: MirValue::Literal(HirLiteral::Integer(text)), .. } => assert_eq!(text, "3"),
        other => panic!("expected the payload index, got {other:?}"),
    }
    assert_eq!(
        ins[4],
        MirInstr::Eval { dest: MirValueId(4), value: MirValue::Index { base: scrutinee, index: MirValueId(3) }, ty: MirValueType::Unknown }
    );
}

#[test]
fn enum_pattern_bindings_use_recorded_payloads() {
    let mut l = lowerer();
    let tag = int_literal(&mut l, MirBlockId(0), "1");
    let payload = int_literal(&mut l, MirBlockId(0), "7");
    let scrutinee = l.push_eval(
        MirBlockId(0),
        MirValue::EnumVariant { root: None, variant: "Some".to_string(), tag: 1, tag_bits: 32, payload: vec![payload] },
        MirValueType::Unknown,
    );
    l.aggregate_sequences.push((scrutinee, vec![tag, payload]));
    let pattern = HirPattern::EnumVariant { root: None, variant: "Some".to_string(), bindings: vec!["v".to_string()] };
    let (_, saved) = l.bind_match_pattern_values(MirBlockId(0), scrutinee, &pattern);
    assert_eq!(saved, vec![("v".to_string(), None)]);
    assert_eq!(l.get_local("v"), Some(payload));
    assert_eq!(l.function.blocks[0].instructions.len(), 3);
    l.restore_local_bindings(saved);
    assert_eq!(l.get_local("v"), None);
}

#[test]
fn identifier_patterns_bind_the_scrutinee() {
    let mut l = lowerer();
    let s = int_literal(&mut l, MirBlockId(0), "1");
    let (_, bindings) = l.pattern_binding_values(MirBlockId(0), s, &HirPattern::IdentBind("n".to_string()));
    assert_eq!(bindings, vec![("n".to_string(), s)]);
    let (_, none) = l.pattern_binding_values(MirBlockId(0), s, &HirPattern::IdentBind("_".to_string()));
    assert!(none.is_empty());
    let (_, wildcard) = l.pattern_binding_values(MirBlockId(0), s, &HirPattern::Wildcard);
    assert!(wildcard.is_empty());
}

#[test]
fn call_arguments_fill_parameters_by_name_then_in_order() {
    let l = lowerer();
    let params = vec!["a".to_string(), "b".to_string(), "c".to_string()];
    let args = vec![(Some("b".to_string()), 2), (None, 1), (None, 3), (None, 4), (Some("zz".to_string()), 9)];
    assert_eq!(l.order_named_call_items(&params, &args), vec![Some(1), Some(2), Some(3)]);
    let only_named = vec![(Some("c".to_string()), 5)];
    assert_eq!(l.order_named_call_items(&params, &only_named), vec![None, None, Some(5)]);
}

#[test]
fn slice_bounds_clamp_to_the_sequence() {
    let mut l = lowerer();
    let one = int_literal(&mut l, MirBlockId(0), "1");
    let three = int_literal(&mut l, MirBlockId(0), "3");
    let ten = int_literal(&mut l, MirBlockId(0), "10");
    let neg = int_literal(&mut l, MirBlockId(0), "-4");
    assert_eq!(l.aggregate_slice_bounds(5, Some(one), Some(three), false), Some((1, 3)));
    assert_eq!(l.aggregate_slice_bounds(5, Some(one), Some(three), true), Some((1, 4)));
    assert_eq!(l.aggregate_slice_bounds(5, None, Some(ten), false), Some((0, 5)));
    assert_eq!(l.aggregate_slice_bounds(5, Some(neg), None, false), Some((0, 5)));
    assert_eq!(l.aggregate_slice_bounds(5, Some(three), Some(one), false), None);
}

#[test]
fn slices_of_recorded_aggregates_are_recorded() {
    let mut l = lowerer();
    let e: Vec<MirValueId> = (0..4).map(|i| int_literal(&mut l, MirBlockId(0), &i.to_string())).collect();
    let base = l.push_eval(MirBlockId(0), MirValue::Unknown, MirValueType::Unknown);
    l.aggregate_sequences.push((base, e.clone()));
    let one = int_literal(&mut l, MirBlockId(0), "1");
    let dest = l.push_eval(MirBlockId(0), MirValue::Unknown, MirValueType::Unknown);
    l.track_aggregate_slice_view(dest, base, Some(one), None, false);
    assert_eq!(l.inferred_sequence_element_type(dest), int32());
    assert!(l.aggregate_sequences.iter().any(|(id, seq)| *id == dest && seq == &e[1..].to_vec()));
    l.invalidate_address_taken_aggregate_view(dest, 0);
    assert!(l.aggregate_sequences.iter().all(|(id, _)| *id != dest));
}

#[test]
fn access_types_follow_passthrough_values() {
    let mut l = lowerer();
    let text = l.push_eval(MirBlockId(0), MirValue::Literal(HirLiteral::String("hi".to_string())), MirValueType::BytesSlice);
    let local = l.push_eval(MirBlockId(0), MirValue::LocalSet { name: "s".to_string(), value: text }, MirValueType::Unknown);
    assert_eq!(l.infer_field_access_result_type(local, "len", 0), MirValueType::Int { signed: false, bits: 64 });
    assert_eq!(l.infer_field_access_result_type(local, "other", 0), MirValueType::Unknown);
    assert_eq!(l.infer_index_result_type(local, 0), MirValueType::Int { signed: false, bits: 8 });
    assert_eq!(l.infer_slice_result_type(local, 0), MirValueType::BytesSlice);
    assert_eq!(l.next_passthrough_access_base(local), Some(text));
    assert!(l.value_type_is_bytes_slice(text));
}

#[test]
fn struct_values_are_aggregate_like() {
    let mut l = lowerer();
    let x = int_literal(&mut l, MirBlockId(0), "1");
    let s = l.push_eval(MirBlockId(0), MirValue::StructLiteral { fields: vec![("x".to_string(), x)] }, MirValueType::Unknown);
    let cast = l.push_eval(MirBlockId(0), MirValue::Cast { value: s, target: MirValueType::Unknown }, MirValueType::Unknown);
    assert!(l.value_is_aggregate_like(cast, 0));
    assert!(!l.should_track_address_taken_local(cast));
    assert!(l.should_track_address_taken_local(x));
    l.struct_fields.push((s, vec![("x".to_string(), x)]));
    assert_eq!(l.infer_field_access_result_type(cast, "x", 0), int32());
}

#[test]
fn payloadless_variants_are_error_returns() {
    let mut l = lowerer();
    let err = l.push_eval(
        MirBlockId(0),
        MirValue::EnumVariant { root: None, variant: "Oops".to_string(), tag: 1, tag_bits: 32, payload: Vec::new() },
        MirValueType::Unknown,
    );
    let cast = l.push_eval(MirBlockId(0), MirValue::Cast { value: err, target: int32() }, int32());
    let plain = int_literal(&mut l, MirBlockId(0), "0");
    assert!(l.return_value_is_error_variant(cast, 0));
    assert!(!l.return_value_is_error_variant(plain, 0));
    assert!(!l.return_value_is_error_variant(cast, 17));
}

#[test]
fn callees_resolve_through_local_bindings() {
    let mut shared = empty_shared();
    shared.function_return_types = vec![("g".to_string(), MirValueType::Bool)];
    let mut l = FunctionLowerer::new(key(&[], "main"), "main.dyn".to_string(), "f".to_string(), shared);
    let g = l.push_eval(MirBlockId(0), MirValue::Ident("g".to_string()), MirValueType::FunctionPointer);
    let bound = l.push_eval(MirBlockId(0), MirValue::LocalSet { name: "h".to_string(), value: g }, MirValueType::FunctionPointer);
    assert_eq!(l.resolve_callee_function_name(bound, 0), Some("g".to_string()));
    assert_eq!(l.infer_call_result_type(bound, 0), MirValueType::Bool);
    l.current_param_type_hints = vec![Some("fn(i32) -> u16".to_string())];
    let param = l.push_eval(MirBlockId(0), MirValue::Param { index: 0 }, MirValueType::FunctionPointer);
    assert_eq!(l.infer_call_result_type(param, 0), MirValueType::Int { signed: false, bits: 16 });
    assert_eq!(l.resolve_callee_function_name(param, 0), None);
}

#[test]
fn imported_members_resolve_to_qualified_names() {
    let mut shared = empty_shared();
    shared.function_exprs = vec![("id".to_string(), expr(HirExprKind::Use { path: "my_id".to_string() }))];
    shared.module_ids_by_key = vec![(key(&[], "main"), ModuleId(0)), (key(&[], "my_id"), ModuleId(1))];
    shared.module_exports_by_id = vec![(ModuleId(1), vec!["f".to_string()])];
    let l = FunctionLowerer::new(key(&[], "main"), "main.dyn".to_string(), "main".to_string(), shared);
    assert_eq!(l.top_level_import_path("id"), Some("my_id"));
    assert_eq!(l.top_level_import_path("other"), None);
    assert_eq!(l.resolve_import_member_ident("my_id", "f"), Some("#1::f".to_string()));
    assert_eq!(l.resolve_import_member_ident("my_id", "g"), None);
    assert_eq!(l.resolve_import_member_ident("missing", "f"), None);
}

#[test]
fn comptime_calls_are_forced_for_type_functions() {
    let mut shared = empty_shared();
    shared.function_return_types = vec![("make".to_string(), MirValueType::Type)];
    shared.function_param_type_hints = vec![
        ("generic".to_string(), vec![None, Some(" comp type ".to_string())]),
        ("plain".to_string(), vec![Some("i32".to_string())]),
    ];
    let l = FunctionLowerer::new(key(&[], "main"), "main.dyn".to_string(), "f".to_string(), shared);
    assert!(l.should_force_comptime_call("make"));
    assert!(l.should_force_comptime_call("generic"));
    assert!(!l.should_force_comptime_call("plain"));
    assert!(!l.should_force_comptime_call("unknown"));
}

#[test]
fn errorable_return_hints_are_classified() {
    let mut shared = empty_shared();
    shared.function_return_hints = vec![
        ("agg".to_string(), Some("Pair!Err".to_string())),
        ("scalar".to_string(), Some("i32!Err".to_string())),
        ("bytes".to_string(), Some("[]u8!".to_string())),
        ("#1::remote".to_string(), Some("i64!".to_string())),
        ("none".to_string(), None),
    ];
    let l = FunctionLowerer::new(key(&[], "main"), "main.dyn".to_string(), "f".to_string(), shared);
    assert!(l.function_returns_errorable_aggregate("agg"));
    assert!(!l.function_returns_errorable_scalar("agg"));
    assert!(l.function_returns_errorable_scalar("scalar"));
    assert!(!l.function_returns_errorable_aggregate("scalar"));
    assert!(l.function_returns_errorable_scalar("remote"));
    assert!(!l.function_returns_errorable_scalar("none"));
    assert!(!l.function_returns_errorable_scalar("bytes"));
    assert!(!l.function_returns_errorable_aggregate("bytes"));
}

#[test]
fn errorable_return_type_has_a_bang() {
    let mut l = lowerer();
    assert!(!l.function_returns_errorable());
    l.function.return_type = Some("i32!".to_string());
    assert!(l.function_returns_errorable());
}

#[test]
fn checks_compare_with_zero_or_a_constant() {
    let mut l = lowerer();
    let f = l.push_eval(MirBlockId(0), MirValue::Literal(HirLiteral::Float("1.5".to_string())), MirValueType::Float { bits: 64 });
    let c = l.emit_nonzero_check(MirBlockId(0), f, &MirValueType::Float { bits: 64 });
    assert_eq!(c, MirValueId(2));
    match &l.function.blocks[0].instructions[1] {
        MirInstr::Eval { value: MirValue::Literal(HirLiteral::Float(text)), .. } => assert_eq!(text, "0.0"),
        other => panic!("expected a zero literal, got {other:?}"),
    }
    let e = l.emit_int_equality_check(MirBlockId(0), f, -3);
    match &l.function.blocks[0].instructions[3] {
        MirInstr::Eval { value: MirValue::Literal(HirLiteral::Integer(text)), .. } => assert_eq!(text, "-3"),
        other => panic!("expected the constant, got {other:?}"),
    }
    assert_eq!(
        l.function.blocks[0].instructions[4],
        MirInstr::Eval { dest: e, value: MirValue::Binary { op: BinaryOp::Eq, left: f, right: MirValueId(3) }, ty: MirValueType::Bool }
    );
}

#[test]
fn comptime_values_are_emitted_with_their_types() {
    let mut l = lowerer();
    let t = l.emit_comptime_value(MirBlockId(0), ComptimeValue::Type("u8".to_string()));
    let f = l.emit_comptime_value(MirBlockId(0), ComptimeValue::Function("g".to_string()));
    let b = l.emit_comptime_value(MirBlockId(0), ComptimeValue::Literal(HirLiteral::Bool(true)));
    assert_eq!(l.value_type(t), Some(MirValueType::Type));
    assert_eq!(l.value_type(f), Some(MirValueType::FunctionPointer));
    assert_eq!(l.value_type(b), Some(MirValueType::Bool));
}

#[test]
fn print_calls_are_recognised() {
    let l = lowerer();
    assert!(l.is_format_print_call(&ident("println"), None));
    assert!(l.is_format_print_call(&ident("x"), Some("#2::print")));
    let field = expr(HirExprKind::FieldAccess { base: Box::new(ident("io")), field: "print".to_string() });
    assert!(l.is_format_print_call(&field, None));
    assert!(!l.is_format_print_call(&ident("printf"), Some("printer")));
}

#[test]
fn tuple_like_aggregates_match_fields_to_elements() {
    let mut l = lowerer();
    let a = int_literal(&mut l, MirBlockId(0), "1");
    let b = int_literal(&mut l, MirBlockId(0), "2");
    let t = l.push_eval(MirBlockId(0), MirValue::Unknown, MirValueType::Unknown);
    l.aggregate_sequences.push((t, vec![a, b]));
    l.struct_fields.push((t, vec![("__0".to_string(), a), ("__1".to_string(), b)]));
    assert_eq!(l.tuple_like_aggregate_values(t), Some(vec![a, b]));
    l.struct_fields[0].1[1].1 = a;
    assert_eq!(l.tuple_like_aggregate_values(t), None);
}

#[test]
fn lowering_failures_are_reported_at_their_span() {
    let mut l = lowerer();
    l.report_comptime_eval_failure(span());
    l.report_inline_call_lowering_failure(span());
    l.report_inline_range_requires_comptime_bounds(span());
    l.report_unsupported_inline_expression(span());
    let codes: Vec<DiagnosticCode> = l.diagnostics.iter().map(|d| d.code).collect();
    assert_eq!(codes, vec![DiagnosticCode::E4009, DiagnosticCode::E4010, DiagnosticCode::E4011, DiagnosticCode::E4012]);
    let label = l.diagnostics[0].primary_label.as_ref().unwrap();
    assert_eq!(label.file, "main.dyn");
    assert_eq!(l.diagnostics[1].message, "inline call could not be lowered");
}

#[test]
fn a_terminated_lowered_function_passes_mir_verification() {
    let mut l = lowerer();
    let cond = l.push_eval(MirBlockId(0), MirValue::Literal(HirLiteral::Bool(true)), MirValueType::Bool);
    let then_block = l.new_block();
    let else_block = l.new_block();
    let join = l.new_block();
    l.set_terminator(MirBlockId(0), MirTerminator::Branch { condition: cond, then_block, else_block });
    let one = int_literal(&mut l, then_block, "1");
    let two = int_literal(&mut l, else_block, "2");
    l.set_goto_if_not_terminated(then_block, join);
    l.set_goto_if_not_terminated(else_block, join);
    let merged = l.build_loop_break_value(join, vec![(then_block, one), (else_block, two)]).unwrap();
    l.set_terminator(join, MirTerminator::Return(Some(merged)));
    let program = MirProgram {
        modules: vec![MirModule {
            module_id: ModuleId(0),
            key: key(&[], "main"),
            globals: Vec::new(),
            functions: vec![l.function],
            extern_functions: Vec::new(),
        }],
    };
    assert!(verify_mir_program(&program).is_empty());
}

#[test]
fn literal_pattern_test_compares_and_branches() {
    let mut l = lowerer();
    let entry = MirBlockId(0);
    let scrutinee = int_literal(&mut l, entry, "7");
    let then_block = l.new_block();
    let else_block = l.new_block();
    l.lower_match_pattern(entry, scrutinee, &HirPattern::Literal(HirLiteral::Integer("7".to_string())), then_block, else_block);
    let ins = &l.function.blocks[0].instructions;
    assert_eq!(ins.len(), 3);
    assert_eq!(
        ins[2],
        MirInstr::Eval {
            dest: MirValueId(2),
            value: MirValue::Binary { op: BinaryOp::Eq, left: scrutinee, right: MirValueId(1) },
            ty: MirValueType::Bool,
        }
    );
    assert_eq!(
        l.function.blocks[0].terminator,
        Some(MirTerminator::Branch { condition: MirValueId(2), then_block, else_block })
    );
}

#[test]
fn range_pattern_test_checks_both_bounds() {
    let mut l = lowerer();
    let entry = MirBlockId(0);
    let scrutinee = int_literal(&mut l, entry, "3");
    let then_block = l.new_block();
    let else_block = l.new_block();
    let pattern = HirPattern::RangeLiteral {
        start: HirLiteral::Integer("1".to_string()),
        end: HirLiteral::Integer("5".to_string()),
        inclusive: false,
    };
    l.lower_match_pattern(entry, scrutinee, &pattern, then_block, else_block);
    let ins = &l.function.blocks[0].instructions;
    assert_eq!(ins.len(), 6);
    assert_eq!(
        ins[4],
        MirInstr::Eval {
            dest: MirValueId(4),
            value: MirValue::Binary { op: BinaryOp::Lt, left: scrutinee, right: MirValueId(2) },
            ty: MirValueType::Bool,
        }
    );
    assert_eq!(
        l.function.blocks[0].terminator,
        Some(MirTerminator::Branch { condition: MirValueId(5), then_block, else_block })
    );
}

#[test]
fn unresolved_rooted_enum_pattern_is_reported_and_fails() {
    let mut l = lowerer();
    let entry = MirBlockId(0);
    let scrutinee = int_literal(&mut l, entry, "0");
    let then_block = l.new_block();
    let else_block = l.new_block();
    let pattern = HirPattern::EnumVariant { root: Some("Color".to_string()), variant: "Red".to_string(), bindings: Vec::new() };
    l.lower_match_pattern(entry, scrutinee, &pattern, then_block, else_block);
    assert_eq!(l.diagnostics.len(), 1);
    assert_eq!(l.diagnostics[0].code, DiagnosticCode::E4005);
    assert_eq!(l.diagnostics[0].message, "cannot resolve enum match pattern 'Red'; use an explicit enum root");
    assert_eq!(l.function.blocks[0].terminator, Some(MirTerminator::Goto(else_block)));
}

#[test]
fn wildcard_pattern_test_jumps_to_the_arm() {
    let mut l = lowerer();
    let entry = MirBlockId(0);
    let scrutinee = int_literal(&mut l, entry, "0");
    let then_block = l.new_block();
    let else_block = l.new_block();
    l.lower_match_pattern(entry, scrutinee, &HirPattern::Wildcard, then_block, else_block);
    assert_eq!(l.function.blocks[0].instructions.len(), 1);
    assert_eq!(l.function.blocks[0].terminator, Some(MirTerminator::Goto(then_block)));
}
