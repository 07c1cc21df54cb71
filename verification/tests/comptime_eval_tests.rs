use lib::ast::{AssignOp, BinaryOp, UnaryOp};
use lib::comptime_eval::set_comptime_local;
use lib::function_lowerer::{BuildTarget, FunctionLowerer, FunctionLowererShared};
use lib::hir::{HirCallArg, HirExpr, HirExprKind, HirIfCapture, HirLiteral};
use lib::lower_helpers::ComptimeValue;
use lib::mir::{MirBlockId, MirValue, MirValueType};
use lib::module_resolver::ModuleKey;
use lib::span::SourceSpan;

fn span() -> SourceSpan {
    SourceSpan { start_byte: 0, end_byte: 0, start_line: 1, start_col: 1, end_line: 1, end_col: 1 }
}

fn expr(kind: HirExprKind) -> HirExpr {
    HirExpr { span: span(), kind }
}

fn int_lit(text: &str) -> HirExpr {
    expr(HirExprKind::Literal(HirLiteral::Integer(text.to_string())))
}

fn boolean(b: bool) -> HirExpr {
    expr(HirExprKind::Literal(HirLiteral::Bool(b)))
}

fn ident(name: &str) -> HirExpr {
    expr(HirExprKind::Ident(name.to_string()))
}

fn ty(name: &str) -> HirExpr {
    expr(HirExprKind::TypeLiteral(name.to_string()))
}

fn binary(op: BinaryOp, left: HirExpr, right: HirExpr) -> HirExpr {
    expr(HirExprKind::Binary { op, left: Box::new(left), right: Box::new(right) })
}

fn call(name: &str, args: Vec<HirExpr>) -> HirExpr {
    expr(HirExprKind::Call {
        callee: Box::new(ident(name)),
        args: args.into_iter().map(|value| HirCallArg { name: None, value }).collect(),
    })
}

fn function(params: &[&str], defaults: Vec<Option<HirExpr>>, body: HirExpr) -> HirExpr {
    expr(HirExprKind::Function {
        params: params.iter().map(|p| p.to_string()).collect(),
        param_types: params.iter().map(|_| None).collect(),
        param_defaults: defaults,
        has_explicit_return_type: false,
        body: Box::new(body),
    })
}

fn shared(function_exprs: Vec<(String, HirExpr)>, named: Vec<(String, String)>) -> FunctionLowererShared {
    FunctionLowererShared {
        named_type_literals: named,
        build_target: BuildTarget { sanitize: true, mode: 2, arch: 1, os: 0 },
        function_return_types: Vec::new(),
        function_return_hints: Vec::new(),
        function_param_type_hints: Vec::new(),
        enum_repr_bits_by_name: Vec::new(),
        enum_variant_tags_by_name: Vec::new(),
        function_exprs,
        module_ids_by_key: Vec::new(),
        module_exports_by_id: Vec::new(),
    }
}

fn lowerer_with(function_exprs: Vec<(String, HirExpr)>, named: Vec<(String, String)>) -> FunctionLowerer {
    let key = ModuleKey { directory: Vec::new(), module_name: "main".to_string() };
    FunctionLowerer::new(key, "main.dyn".to_string(), "main".to_string(), shared(function_exprs, named))
}

fn eval(l: &FunctionLowerer, e: &HirExpr) -> Option<ComptimeValue> {
    let mut locals = Vec::new();
    l.try_eval_comptime_expr_with_locals(e, 0, &mut locals)
}

fn int_value(text: &str) -> Option<ComptimeValue> {
    Some(ComptimeValue::Literal(HirLiteral::Integer(text.to_string())))
}

#[test]
fn comptime_arithmetic_folds_to_a_literal() {
    let l = lowerer_with(Vec::new(), Vec::new());
    let e = expr(HirExprKind::Comptime { expr: Box::new(binary(BinaryOp::Add, int_lit("2"), int_lit("3"))) });
    assert_eq!(eval(&l, &e), int_value("5"));
}

#[test]
fn comptime_call_of_a_zero_argument_function_gives_its_value() {
    let make = function(&[], Vec::new(), int_lit("42"));
    let l = lowerer_with(vec![("make".to_string(), make)], Vec::new());
    assert_eq!(eval(&l, &call("make", Vec::new())), int_value("42"));
}

#[test]
fn comptime_call_returning_a_function_gives_the_function_symbol() {
    let inc = function(&["x"], vec![None], binary(BinaryOp::Add, ident("x"), int_lit("1")));
    let make = function(&[], Vec::new(), ident("inc"));
    let l = lowerer_with(vec![("inc".to_string(), inc), ("make".to_string(), make)], Vec::new());
    assert_eq!(eval(&l, &call("make", Vec::new())), Some(ComptimeValue::Function("inc".to_string())));
}

#[test]
fn comptime_call_binds_arguments_and_defaults() {
    let add = function(
        &["a", "b"],
        vec![None, Some(int_lit("10"))],
        binary(BinaryOp::Mul, ident("a"), ident("b")),
    );
    let l = lowerer_with(vec![("scale".to_string(), add)], Vec::new());
    assert_eq!(eval(&l, &call("scale", vec![int_lit("3")])), int_value("30"));
    assert_eq!(eval(&l, &call("scale", vec![int_lit("3"), int_lit("4")])), int_value("12"));
    // More arguments than parameters: not known at compile time.
    assert_eq!(eval(&l, &call("scale", vec![int_lit("1"), int_lit("2"), int_lit("3")])), None);
    // A parameter with neither an argument nor a default.
    assert_eq!(eval(&l, &call("scale", Vec::new())), None);
}

#[test]
fn let_binds_a_local_for_later_items_of_the_block() {
    let l = lowerer_with(Vec::new(), Vec::new());
    let block = expr(HirExprKind::Block {
        body: vec![
            expr(HirExprKind::Let { name: "x".to_string(), mutable: true, value: Box::new(int_lit("7")) }),
            expr(HirExprKind::Assign {
                op: AssignOp::Assign,
                target: Box::new(ident("x")),
                value: Box::new(binary(BinaryOp::Mul, ident("x"), int_lit("6"))),
            }),
            ident("x"),
        ],
    });
    assert_eq!(eval(&l, &block), int_value("42"));
    // The block's bindings stay inside it.
    let mut locals = Vec::new();
    l.try_eval_comptime_expr_with_locals(&block, 0, &mut locals);
    assert!(locals.is_empty());
}

#[test]
fn a_let_outside_a_block_binds_in_the_callers_locals() {
    let l = lowerer_with(Vec::new(), Vec::new());
    let mut locals = Vec::new();
    let e = expr(HirExprKind::Let { name: "n".to_string(), mutable: false, value: Box::new(int_lit("3")) });
    assert_eq!(l.try_eval_comptime_expr_with_locals(&e, 0, &mut locals), int_value("3"));
    assert_eq!(locals, vec![("n".to_string(), ComptimeValue::Literal(HirLiteral::Integer("3".to_string())))]);
    // A second binding of the same name replaces the first.
    let e2 = expr(HirExprKind::Let { name: "n".to_string(), mutable: false, value: Box::new(int_lit("4")) });
    l.try_eval_comptime_expr_with_locals(&e2, 0, &mut locals);
    assert_eq!(locals.len(), 1);
    assert_eq!(locals[0].1, ComptimeValue::Literal(HirLiteral::Integer("4".to_string())));
}

#[test]
fn return_ends_a_block_with_its_value() {
    let l = lowerer_with(Vec::new(), Vec::new());
    let block = expr(HirExprKind::Block {
        body: vec![
            expr(HirExprKind::Return { value: Some(Box::new(int_lit("1"))) }),
            int_lit("2"),
        ],
    });
    assert_eq!(eval(&l, &block), int_value("1"));
    let bare = expr(HirExprKind::Block { body: vec![int_lit("2"), expr(HirExprKind::Return { value: None })] });
    assert_eq!(eval(&l, &bare), None);
}

#[test]
fn if_picks_the_branch_by_the_conditions_truth_and_binds_the_capture() {
    let l = lowerer_with(Vec::new(), Vec::new());
    let pick = |c: HirExpr| {
        expr(HirExprKind::If {
            condition: Box::new(c),
            capture: Some(HirIfCapture { binding: Some("v".to_string()) }),
            then_branch: Box::new(ident("v")),
            else_branch: Some(Box::new(int_lit("0"))),
        })
    };
    assert_eq!(eval(&l, &pick(int_lit("9"))), int_value("9"));
    assert_eq!(eval(&l, &pick(boolean(false))), int_value("0"));
    let no_else = expr(HirExprKind::If {
        condition: Box::new(boolean(false)),
        capture: None,
        then_branch: Box::new(int_lit("1")),
        else_branch: None,
    });
    assert_eq!(eval(&l, &no_else), None);
    // A float condition's truth is a floating-point comparison, not decided here.
    let float_cond = expr(HirExprKind::If {
        condition: Box::new(expr(HirExprKind::Literal(HirLiteral::Float("1.5".to_string())))),
        capture: None,
        then_branch: Box::new(int_lit("1")),
        else_branch: None,
    });
    assert_eq!(eval(&l, &float_cond), None);
}

#[test]
fn unary_operators_fold_integers_and_booleans() {
    let l = lowerer_with(Vec::new(), Vec::new());
    let un = |op: UnaryOp, e: HirExpr| expr(HirExprKind::Unary { op, expr: Box::new(e) });
    assert_eq!(eval(&l, &un(UnaryOp::Neg, int_lit("5"))), int_value("-5"));
    assert_eq!(eval(&l, &un(UnaryOp::BitNot, int_lit("5"))), int_value("-6"));
    assert_eq!(eval(&l, &un(UnaryOp::Not, boolean(true))), Some(ComptimeValue::Literal(HirLiteral::Bool(false))));
    assert_eq!(eval(&l, &un(UnaryOp::Not, int_lit("1"))), None);
    assert_eq!(eval(&l, &un(UnaryOp::Ref, int_lit("1"))), None);
}

#[test]
fn layout_builtins_fold_to_sizes_and_offsets() {
    let l = lowerer_with(Vec::new(), vec![("Pair".to_string(), "struct{a:u8,b:u32}".to_string())]);
    assert_eq!(eval(&l, &call("$sizeof", vec![ty("u16")])), int_value("2"));
    assert_eq!(eval(&l, &call("$alignof", vec![ty("u64")])), int_value("8"));
    assert_eq!(eval(&l, &call("$sizeof", vec![ident("Pair")])), int_value("8"));
    assert_eq!(eval(&l, &call("$offsetof", vec![ident("Pair"), ident("b")])), int_value("4"));
    assert_eq!(eval(&l, &call("$offsetof", vec![ident("Pair"), int_lit("1")])), int_value("4"));
    let quoted = expr(HirExprKind::Literal(HirLiteral::String("b".to_string())));
    assert_eq!(eval(&l, &call("$offsetof", vec![ident("Pair"), quoted])), None);
    assert_eq!(eval(&l, &call("$sizeof", Vec::new())), None);
}

#[test]
fn typeof_names_the_type_of_a_value() {
    let l = lowerer_with(Vec::new(), Vec::new());
    let type_of = |e: HirExpr| eval(&l, &call("$typeof", vec![e]));
    assert_eq!(type_of(int_lit("1")), Some(ComptimeValue::Type("i32".to_string())));
    assert_eq!(type_of(boolean(true)), Some(ComptimeValue::Type("u1".to_string())));
    assert_eq!(
        type_of(expr(HirExprKind::Literal(HirLiteral::Float("2.0".to_string())))),
        Some(ComptimeValue::Type("f64".to_string()))
    );
    assert_eq!(type_of(ty("u8")), Some(ComptimeValue::Type("type".to_string())));
}

#[test]
fn typeof_a_mir_local_prefers_its_mir_type() {
    let mut l = lowerer_with(Vec::new(), Vec::new());
    let v = l.push_eval(
        MirBlockId(0),
        MirValue::Literal(HirLiteral::Integer("99".to_string())),
        MirValueType::Int { signed: false, bits: 64 },
    );
    l.locals.push(("a".to_string(), v));
    assert_eq!(eval(&l, &call("$typeof", vec![ident("a")])), Some(ComptimeValue::Type("u64".to_string())));
}

#[test]
fn type_predicates_and_classes() {
    let l = lowerer_with(Vec::new(), Vec::new());
    let yes = Some(ComptimeValue::Literal(HirLiteral::Bool(true)));
    let no = Some(ComptimeValue::Literal(HirLiteral::Bool(false)));
    assert_eq!(eval(&l, &call("$is_uint", vec![ty("u32")])), yes);
    assert_eq!(eval(&l, &call("$is_sint", vec![ty("u32")])), no);
    assert_eq!(eval(&l, &call("$is_float", vec![ty("f32")])), yes);
    assert_eq!(eval(&l, &call("$typeclass", vec![ty("i16")])), Some(ComptimeValue::Type("sint".to_string())));
    assert_eq!(
        eval(&l, &call("$typename", vec![ty("[]u8")])),
        Some(ComptimeValue::Literal(HirLiteral::String("[]u8".to_string())))
    );
}

#[test]
fn has_method_and_has_field_look_up_members() {
    let method = function(&["self"], vec![None], int_lit("0"));
    let l = lowerer_with(
        vec![("Point__len".to_string(), method)],
        vec![("Point".to_string(), "struct{x:i32,y:i32}".to_string())],
    );
    let member = |m: &str| expr(HirExprKind::Literal(HirLiteral::String(m.to_string())));
    let yes = Some(ComptimeValue::Literal(HirLiteral::Bool(true)));
    let no = Some(ComptimeValue::Literal(HirLiteral::Bool(false)));
    assert_eq!(eval(&l, &call("$has_method", vec![ident("Point"), member("len")])), yes);
    assert_eq!(eval(&l, &call("$has_method", vec![ident("Point"), member("area")])), no);
    assert_eq!(eval(&l, &call("$has_field", vec![ident("Point"), member("y")])), yes);
    assert_eq!(eval(&l, &call("$has_field", vec![ident("Point"), member("z")])), no);
    assert_eq!(eval(&l, &call("$has_field", vec![ident("Point"), int_lit("1")])), None);
}

#[test]
fn self_names_the_first_parameter_type_or_the_enclosing_struct() {
    let mut l = lowerer_with(Vec::new(), Vec::new());
    assert_eq!(eval(&l, &call("$self", Vec::new())), Some(ComptimeValue::Type("unknown".to_string())));
    l.current_self_type_hint = Some("Vec2".to_string());
    assert_eq!(eval(&l, &call("$self", Vec::new())), Some(ComptimeValue::Type("Vec2".to_string())));
    l.current_param_type_hints = vec![Some("*mut Node".to_string())];
    assert_eq!(eval(&l, &call("$self", Vec::new())), Some(ComptimeValue::Type("Node".to_string())));
}

#[test]
fn target_fields_report_the_build_target() {
    let l = lowerer_with(Vec::new(), Vec::new());
    let field = |f: &str| {
        expr(HirExprKind::FieldAccess { base: Box::new(call("$target", Vec::new())), field: f.to_string() })
    };
    assert_eq!(eval(&l, &field("sanitize")), Some(ComptimeValue::Literal(HirLiteral::Bool(true))));
    assert_eq!(eval(&l, &field("mode")), int_value("2"));
    assert_eq!(eval(&l, &field("arch")), int_value("1"));
    assert_eq!(eval(&l, &field("os")), int_value("0"));
    assert_eq!(eval(&l, &field("cpu")), None);
}

#[test]
fn as_casts_a_value_to_a_type() {
    let l = lowerer_with(Vec::new(), Vec::new());
    assert_eq!(eval(&l, &call("$as", vec![ty("u8"), int_lit("7")])), int_value("7"));
    assert_eq!(eval(&l, &call("$as", vec![ty("u8")])), None);
}

#[test]
fn type_literals_substitute_type_locals() {
    let l = lowerer_with(Vec::new(), Vec::new());
    let mut locals = Vec::new();
    set_comptime_local(&mut locals, "T".to_string(), ComptimeValue::Type("u16".to_string()));
    assert_eq!(
        l.try_eval_comptime_expr_with_locals(&ty("[]T"), 0, &mut locals),
        Some(ComptimeValue::Type("[]u16".to_string()))
    );
    assert_eq!(l.eval_type_designator_name(&ident("T"), &locals), Some("u16".to_string()));
    assert_eq!(l.comptime_type_name_from_expr_with_locals(&ident("Q"), 0, &locals), Some("Q".to_string()));
}

#[test]
fn evaluation_past_the_depth_bound_is_not_known() {
    let l = lowerer_with(Vec::new(), Vec::new());
    let mut locals = Vec::new();
    assert_eq!(l.try_eval_comptime_expr_with_locals(&int_lit("1"), 64, &mut locals), int_value("1"));
    assert_eq!(l.try_eval_comptime_expr_with_locals(&int_lit("1"), 65, &mut locals), None);
    // A constant defined in terms of itself is cut off by the bound.
    let l2 = lowerer_with(vec![("loop_const".to_string(), binary(BinaryOp::Add, ident("loop_const"), int_lit("1")))], Vec::new());
    assert_eq!(eval(&l2, &ident("loop_const")), None);
}

#[test]
fn functions_bound_to_locals_see_the_callers_locals() {
    let mut l = lowerer_with(Vec::new(), Vec::new());
    l.comptime_local_function_exprs.push(("addk".to_string(), function(&["x"], vec![None], binary(BinaryOp::Add, ident("x"), ident("k")))));
    let mut locals = Vec::new();
    set_comptime_local(&mut locals, "k".to_string(), ComptimeValue::Literal(HirLiteral::Integer("100".to_string())));
    set_comptime_local(&mut locals, "f".to_string(), ComptimeValue::Function("addk".to_string()));
    assert_eq!(l.try_eval_comptime_expr_with_locals(&call("f", vec![int_lit("5")]), 0, &mut locals), int_value("105"));
}

#[test]
fn a_bound_local_reads_back_and_other_locals_are_kept() {
    let l = lowerer_with(Vec::new(), Vec::new());
    let mut locals = Vec::new();
    set_comptime_local(&mut locals, "a".to_string(), ComptimeValue::Literal(HirLiteral::Integer("1".to_string())));
    set_comptime_local(&mut locals, "b".to_string(), ComptimeValue::Literal(HirLiteral::Integer("2".to_string())));
    set_comptime_local(&mut locals, "a".to_string(), ComptimeValue::Literal(HirLiteral::Integer("3".to_string())));
    assert_eq!(l.try_eval_comptime_expr_with_locals(&ident("a"), 0, &mut locals), int_value("3"));
    assert_eq!(l.try_eval_comptime_expr_with_locals(&ident("b"), 0, &mut locals), int_value("2"));
    assert_eq!(locals.len(), 2);
}

#[test]
fn mir_values_fold_through_operators_and_casts() {
    let mut l = lowerer_with(vec![("inc".to_string(), function(&["x"], vec![None], ident("x")))], Vec::new());
    let i32t = MirValueType::Int { signed: true, bits: 32 };
    let a = l.push_eval(MirBlockId(0), MirValue::Literal(HirLiteral::Integer("6".to_string())), i32t);
    let b = l.push_eval(MirBlockId(0), MirValue::Literal(HirLiteral::Integer("7".to_string())), i32t);
    let prod = l.push_eval(MirBlockId(0), MirValue::Binary { op: BinaryOp::Mul, left: a, right: b }, i32t);
    let neg = l.push_eval(MirBlockId(0), MirValue::Unary { op: UnaryOp::Neg, operand: prod }, i32t);
    let cast = l.push_eval(MirBlockId(0), MirValue::Cast { value: neg, target: MirValueType::Int { signed: true, bits: 64 } }, i32t);
    let f = l.push_eval(MirBlockId(0), MirValue::Ident("inc".to_string()), MirValueType::FunctionPointer);
    let g = l.push_eval(MirBlockId(0), MirValue::Ident("unknown_name".to_string()), MirValueType::Unknown);
    let mut cache = Vec::new();
    let mut visiting = Vec::new();
    assert_eq!(l.try_eval_comptime_value_id(cast, 0, &mut cache, &mut visiting), int_value("-42"));
    assert!(visiting.is_empty());
    // Every value worked out on the way is cached.
    assert_eq!(cache.len(), 5);
    assert!(cache.contains(&(prod, int_value("42"))));
    assert_eq!(
        l.try_eval_comptime_value_id(f, 0, &mut cache, &mut visiting),
        Some(ComptimeValue::Function("inc".to_string()))
    );
    assert_eq!(l.try_eval_comptime_value_id(g, 0, &mut cache, &mut visiting), None);
    assert!(cache.contains(&(g, None)));
}

#[test]
fn mir_values_cached_or_being_visited_are_not_worked_out_again() {
    let mut l = lowerer_with(Vec::new(), Vec::new());
    let i32t = MirValueType::Int { signed: true, bits: 32 };
    let a = l.push_eval(MirBlockId(0), MirValue::Literal(HirLiteral::Integer("1".to_string())), i32t);
    let mut cache = vec![(a, int_value("9"))];
    let mut visiting = Vec::new();
    assert_eq!(l.try_eval_comptime_value_id(a, 0, &mut cache, &mut visiting), int_value("9"));
    let mut fresh = Vec::new();
    let mut busy = vec![a];
    assert_eq!(l.try_eval_comptime_value_id(a, 0, &mut fresh, &mut busy), None);
    assert!(fresh.is_empty());
    assert_eq!(l.try_eval_comptime_value_id(a, 65, &mut fresh, &mut visiting), None);
}
