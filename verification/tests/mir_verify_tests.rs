use lib::diagnostics::DiagnosticCode;
use lib::hir::HirLiteral;
use lib::mir::{
    MirBasicBlock, MirBlockId, MirFunction, MirInstr, MirModule, MirProgram, MirTerminator, MirValue, MirValueId,
    MirValueType,
};
use lib::mir_verify::{types_compatible, verify_mir_program};
use lib::module_resolver::{ModuleId, ModuleKey};

fn main_key() -> ModuleKey {
    ModuleKey { directory: Vec::new(), module_name: "main".to_string() }
}

fn program_with_blocks(blocks: Vec<MirBasicBlock>) -> MirProgram {
    MirProgram {
        modules: vec![MirModule {
            module_id: ModuleId(0),
            key: main_key(),
            globals: Vec::new(),
            functions: vec![MirFunction {
                name: "f".to_string(),
                def_id: None,
                return_type: None,
                param_type_hints: Vec::new(),
                param_types: Vec::new(),
                entry: MirBlockId(0),
                blocks,
            }],
            extern_functions: Vec::new(),
        }],
    }
}

fn i32_type() -> MirValueType {
    MirValueType::Int { signed: true, bits: 32 }
}

#[test]
fn reports_unterminated_block() {
    let program = program_with_blocks(vec![MirBasicBlock {
        id: MirBlockId(0),
        instructions: Vec::new(),
        terminator: None,
    }]);
    let diagnostics = verify_mir_program(&program);
    assert!(diagnostics.iter().any(|diagnostic| diagnostic.code == DiagnosticCode::E5001));
}

#[test]
fn reports_invalid_phi_source_and_undefined_return_value() {
    let program = program_with_blocks(vec![
        MirBasicBlock {
            id: MirBlockId(0),
            instructions: vec![MirInstr::Phi {
                dest: MirValueId(0),
                sources: vec![(MirBlockId(1), MirValueId(99))],
                ty: i32_type(),
            }],
            terminator: Some(MirTerminator::Return(Some(MirValueId(5)))),
        },
        MirBasicBlock {
            id: MirBlockId(1),
            instructions: Vec::new(),
            terminator: Some(MirTerminator::Goto(MirBlockId(0))),
        },
    ]);
    let diagnostics = verify_mir_program(&program);
    assert!(diagnostics.iter().any(|diagnostic| diagnostic.code == DiagnosticCode::E5003));
}

#[test]
fn reports_phi_after_non_phi() {
    let program = program_with_blocks(vec![MirBasicBlock {
        id: MirBlockId(0),
        instructions: vec![
            MirInstr::Eval {
                dest: MirValueId(0),
                value: MirValue::Literal(HirLiteral::Integer("1".to_string())),
                ty: i32_type(),
            },
            MirInstr::Phi { dest: MirValueId(1), sources: vec![(MirBlockId(0), MirValueId(0))], ty: i32_type() },
        ],
        terminator: Some(MirTerminator::Return(Some(MirValueId(1)))),
    }]);
    let diagnostics = verify_mir_program(&program);
    assert!(diagnostics.iter().any(|diagnostic| diagnostic.code == DiagnosticCode::E5003));
}

#[test]
fn treats_numeric_width_and_bool_int_phi_types_as_compatible() {
    assert!(types_compatible(
        &MirValueType::Int { signed: true, bits: 32 },
        &MirValueType::Int { signed: false, bits: 64 }
    ));
    assert!(types_compatible(&MirValueType::Bool, &MirValueType::Int { signed: false, bits: 8 }));
    assert!(types_compatible(&MirValueType::Float { bits: 32 }, &MirValueType::Float { bits: 64 }));
}

#[test]
fn well_formed_function_has_no_diagnostics() {
    let program = program_with_blocks(vec![
        MirBasicBlock {
            id: MirBlockId(0),
            instructions: vec![MirInstr::Eval {
                dest: MirValueId(0),
                value: MirValue::Literal(HirLiteral::Integer("1".to_string())),
                ty: i32_type(),
            }],
            terminator: Some(MirTerminator::Goto(MirBlockId(1))),
        },
        MirBasicBlock {
            id: MirBlockId(1),
            instructions: vec![MirInstr::Phi { dest: MirValueId(1), sources: vec![(MirBlockId(0), MirValueId(0))], ty: i32_type() }],
            terminator: Some(MirTerminator::Return(Some(MirValueId(1)))),
        },
    ]);
    assert!(verify_mir_program(&program).is_empty());
}

#[test]
fn reports_branch_to_missing_block() {
    let program = program_with_blocks(vec![MirBasicBlock {
        id: MirBlockId(0),
        instructions: Vec::new(),
        terminator: Some(MirTerminator::Goto(MirBlockId(7))),
    }]);
    let diagnostics = verify_mir_program(&program);
    assert!(diagnostics.iter().any(|diagnostic| diagnostic.code == DiagnosticCode::E5001));
}

#[test]
fn float_and_int_are_not_compatible() {
    assert!(!types_compatible(&MirValueType::Float { bits: 64 }, &MirValueType::Int { signed: true, bits: 64 }));
    assert!(types_compatible(&MirValueType::Unknown, &MirValueType::BytesSlice));
}

fn messages(program: &MirProgram) -> Vec<(DiagnosticCode, String)> {
    verify_mir_program(program).into_iter().map(|d| (d.code, d.message)).collect()
}

#[test]
fn unterminated_block_is_reported_once_with_its_message() {
    let program = program_with_blocks(vec![MirBasicBlock {
        id: MirBlockId(0),
        instructions: Vec::new(),
        terminator: None,
    }]);
    assert_eq!(
        messages(&program),
        vec![(DiagnosticCode::E5001, "MIR function 'f' has an unterminated block #0".to_string())]
    );
}

#[test]
fn undefined_phi_source_and_return_value_are_reported_in_order() {
    let program = program_with_blocks(vec![
        MirBasicBlock {
            id: MirBlockId(0),
            instructions: vec![MirInstr::Phi {
                dest: MirValueId(0),
                sources: vec![(MirBlockId(1), MirValueId(99))],
                ty: i32_type(),
            }],
            terminator: Some(MirTerminator::Return(Some(MirValueId(5)))),
        },
        MirBasicBlock { id: MirBlockId(1), instructions: Vec::new(), terminator: Some(MirTerminator::Goto(MirBlockId(0))) },
    ]);
    assert_eq!(
        messages(&program),
        vec![
            (DiagnosticCode::E5003, "MIR function 'f' has phi referencing undefined value #99".to_string()),
            (DiagnosticCode::E5003, "MIR function 'f' returns undefined value #5 in block #0".to_string()),
        ]
    );
}

#[test]
fn phi_after_eval_and_non_predecessor_source_are_reported_in_order() {
    let program = program_with_blocks(vec![MirBasicBlock {
        id: MirBlockId(0),
        instructions: vec![
            MirInstr::Eval {
                dest: MirValueId(0),
                value: MirValue::Literal(HirLiteral::Integer("1".to_string())),
                ty: i32_type(),
            },
            MirInstr::Phi { dest: MirValueId(1), sources: vec![(MirBlockId(0), MirValueId(0))], ty: i32_type() },
        ],
        terminator: Some(MirTerminator::Return(Some(MirValueId(1)))),
    }]);
    assert_eq!(
        messages(&program),
        vec![
            (DiagnosticCode::E5003, "MIR function 'f' has phi after non-phi in block #0".to_string()),
            (
                DiagnosticCode::E5003,
                "MIR function 'f' has phi in block #0 with non-predecessor source block #0".to_string()
            ),
        ]
    );
}

#[test]
fn function_without_blocks_gets_one_report() {
    let program = program_with_blocks(Vec::new());
    assert_eq!(messages(&program), vec![(DiagnosticCode::E5001, "MIR function 'f' has no basic blocks".to_string())]);
}

#[test]
fn undefined_call_operands_are_reported_callee_first() {
    let program = program_with_blocks(vec![MirBasicBlock {
        id: MirBlockId(0),
        instructions: vec![MirInstr::Eval {
            dest: MirValueId(0),
            value: MirValue::Call { callee: MirValueId(7), args: vec![MirValueId(8)] },
            ty: i32_type(),
        }],
        terminator: Some(MirTerminator::Return(None)),
    }]);
    assert_eq!(
        messages(&program),
        vec![
            (DiagnosticCode::E5003, "MIR function 'f' references undefined call callee value #7".to_string()),
            (DiagnosticCode::E5003, "MIR function 'f' references undefined call argument value #8".to_string()),
        ]
    );
}

#[test]
fn verification_of_two_modules_is_the_two_verifications_in_order() {
    let first = program_with_blocks(vec![MirBasicBlock { id: MirBlockId(0), instructions: Vec::new(), terminator: None }]);
    let second = program_with_blocks(Vec::new());
    let expected: Vec<(DiagnosticCode, String)> = messages(&first).into_iter().chain(messages(&second)).collect();
    let mut modules = first.modules;
    modules.extend(second.modules);
    let both = MirProgram { modules };
    assert_eq!(messages(&both), expected);
}

#[test]
fn mir_diagnostics_carry_no_label() {
    let program = program_with_blocks(vec![MirBasicBlock { id: MirBlockId(0), instructions: Vec::new(), terminator: None }]);
    let diagnostics = verify_mir_program(&program);
    assert!(!diagnostics.is_empty());
    assert!(diagnostics.iter().all(|d| d.primary_label.is_none()));
}
