//! Well-formedness verification of MIR programs.
//!
//! A function's structure is checked first (blocks, entry, terminators and
//! their targets, block numbering, phi sources present: code E5001), then its
//! values (each defined once, phis first in their block and fed by predecessor
//! blocks, every operand defined, phi sources of a compatible type, returned
//! and branched-on values defined and scalar: code E5003).

use vstd::prelude::*;
use crate::diagnostics::{has_code, Diagnostic, DiagnosticCode, DiagnosticPhase, Severity};
use crate::mir::{
    MirBasicBlock, MirBlockId, MirFunction, MirInstr, MirModule, MirProgram, MirTerminator, MirValue,
    MirValueId, MirValueType,
};
use crate::text::{push_decimal, push_str, push_string, spec_decimal, string_from_str};

verus! {

/// The value that an instruction defines, with its type.
pub open spec fn instr_def(ins: MirInstr) -> (usize, MirValueType) {
    match ins {
        MirInstr::Eval { dest, ty, .. } => (dest.0, ty),
        MirInstr::Phi { dest, ty, .. } => (dest.0, ty),
    }
}

/// The definitions of a block, in instruction order.
pub open spec fn block_defs(b: MirBasicBlock) -> Seq<(usize, MirValueType)> {
    b.instructions@.map_values(|ins: MirInstr| instr_def(ins))
}

/// The definitions of the first `n` blocks, in order.
pub open spec fn defs_before(blocks: Seq<MirBasicBlock>, n: int) -> Seq<(usize, MirValueType)>
    decreases n,
{
    if n <= 0 {
        Seq::empty()
    } else {
        defs_before(blocks, n - 1) + block_defs(blocks[n - 1])
    }
}

/// All definitions of a function, in block and instruction order.
pub open spec fn fn_defs(f: MirFunction) -> Seq<(usize, MirValueType)> {
    defs_before(f.blocks@, f.blocks@.len() as int)
}

/// The type of value `id` by its last definition in `defs`, if it is defined.
pub open spec fn lookup(defs: Seq<(usize, MirValueType)>, id: usize) -> Option<MirValueType>
    decreases defs.len(),
{
    if defs.len() == 0 {
        None
    } else if defs.last().0 == id {
        Some(defs.last().1)
    } else {
        lookup(defs.drop_last(), id)
    }
}

/// Some value is defined twice.
pub open spec fn has_duplicate_def(defs: Seq<(usize, MirValueType)>) -> bool {
    exists|i: int, j: int| 0 <= i < j < defs.len() && defs[i].0 == defs[j].0
}

/// Whether a phi of type `expected` may take a source of type `actual`.
pub open spec fn spec_types_compatible(expected: MirValueType, actual: MirValueType) -> bool {
    ||| expected == actual
    ||| expected is Unknown
    ||| actual is Unknown
    ||| (expected is Int && actual is Int)
    ||| (expected is Float && actual is Float)
    ||| (expected is Bool && actual is Int)
    ||| (expected is Int && actual is Bool)
    ||| (expected is BytesSlice && actual is BytesSlice)
    ||| (expected is BytesSlice && actual is Int)
    ||| (expected is Int && actual is BytesSlice)
    ||| (expected is FunctionPointer && actual is Function)
    ||| (expected is Function && actual is FunctionPointer)
    ||| (expected is FunctionPointer && actual is Int)
    ||| (expected is Int && actual is FunctionPointer)
}

/// Phi compatibility of MIR types: it is symmetric and reflexive; an
/// unknown type goes with every type; integers go with integers of any
/// width, booleans, byte slices and function pointers; floats go only with
/// floats; functions go with function pointers; and nothing else mixes, in
/// particular never an integer with a float, or a type, closure or boolean
/// with a float.
pub proof fn lemma_types_compatible_classes(x: MirValueType, y: MirValueType)
    ensures
        spec_types_compatible(x, y) == spec_types_compatible(y, x),
        spec_types_compatible(x, x),
        spec_types_compatible(MirValueType::Unknown, y),
        (x is Int && y is Int) ==> spec_types_compatible(x, y),
        (x is Float && y is Float) ==> spec_types_compatible(x, y),
        (x is Int && y is Float) ==> !spec_types_compatible(x, y),
        (x is Float && y is Float) || y is Unknown || !(x is Float) || !spec_types_compatible(x, y),
        x is Float && !(y is Float || y is Unknown) ==> !spec_types_compatible(x, y),
        x is Int && (y is Bool || y is BytesSlice || y is FunctionPointer) ==> spec_types_compatible(x, y),
        x is Function && y is FunctionPointer ==> spec_types_compatible(x, y),
        x is Bool && !(y is Bool || y is Int || y is Unknown) ==> !spec_types_compatible(x, y),
        x is Type && !(y is Type || y is Unknown) ==> !spec_types_compatible(x, y),
        x is Closure && !(y is Closure || y is Unknown) ==> !spec_types_compatible(x, y),
        x is Function && !(y is Function || y is FunctionPointer || y is Unknown) ==> !spec_types_compatible(x, y),
        x is BytesSlice && !(y is BytesSlice || y is Int || y is Unknown) ==> !spec_types_compatible(x, y),
        x is FunctionPointer && !(y is FunctionPointer || y is Function || y is Int || y is Unknown)
            ==> !spec_types_compatible(x, y),
{
}

/// Whether a terminator transfers control to block `target`.
pub open spec fn targets(t: MirTerminator, target: int) -> bool {
    match t {
        MirTerminator::Goto(b) => b.0 == target,
        MirTerminator::Branch { then_block, else_block, .. } => then_block.0 == target
            || else_block.0 == target,
        _ => false,
    }
}

/// Whether an optional terminator transfers control to block `target`.
pub open spec fn targets_opt(t: Option<MirTerminator>, target: int) -> bool {
    match t {
        Some(t) => targets(t, target),
        None => false,
    }
}

/// The sources of a phi; none for an ordinary instruction.
pub open spec fn phi_sources_of(ins: MirInstr) -> Seq<(MirBlockId, MirValueId)> {
    match ins {
        MirInstr::Phi { sources, .. } => sources@,
        MirInstr::Eval { .. } => Seq::empty(),
    }
}

/// Block number `pred` (by its id) jumps to the block at index `target`.
pub open spec fn is_predecessor(f: MirFunction, target: int, pred: int) -> bool {
    0 <= target < f.blocks@.len() && exists|b: int|
        0 <= b < f.blocks@.len() && targets_opt((#[trigger] f.blocks@[b]).terminator, target)
            && f.blocks@[b].id.0 == pred
}

/// The terminator of block `b` is missing or jumps outside the function.
pub open spec fn terminator_error(f: MirFunction, b: int) -> bool {
    match f.blocks@[b].terminator {
        None => true,
        Some(MirTerminator::Goto(t)) => t.0 >= f.blocks@.len(),
        Some(MirTerminator::Branch { then_block, else_block, .. }) => then_block.0 >= f.blocks@.len()
            || else_block.0 >= f.blocks@.len(),
        _ => false,
    }
}

/// Block `b` holds a phi without sources.
pub open spec fn phi_without_sources(f: MirFunction, b: int) -> bool {
    exists|k: int|
        0 <= k < f.blocks@[b].instructions@.len() && (#[trigger] f.blocks@[b].instructions@[k]) is Phi
            && phi_sources_of(f.blocks@[b].instructions@[k]).len() == 0
}

/// Block `b` has a structural fault: a bad terminator, a wrong id, or a phi without sources.
pub open spec fn block_structure_error(f: MirFunction, b: int) -> bool {
    terminator_error(f, b) || f.blocks@[b].id.0 != b || phi_without_sources(f, b)
}

/// The function's control-flow structure is faulty (reported with code E5001).
pub open spec fn structure_error(f: MirFunction) -> bool {
    ||| f.blocks@.len() == 0
    ||| f.entry.0 >= f.blocks@.len()
    ||| exists|b: int| 0 <= b < f.blocks@.len() && #[trigger] block_structure_error(f, b)
}

/// In block `b`, a phi follows an ordinary instruction.
pub open spec fn phi_after_eval(f: MirFunction, b: int) -> bool {
    exists|j: int, k: int|
        0 <= j < k < f.blocks@[b].instructions@.len() && (#[trigger] f.blocks@[b].instructions@[j]) is Eval
            && (#[trigger] f.blocks@[b].instructions@[k]) is Phi
}

/// Block number `pred` is out of range or does not jump to block `b`.
pub open spec fn bad_source_block(f: MirFunction, b: int, pred: int) -> bool {
    pred >= f.blocks@.len() || !is_predecessor(f, f.blocks@[b].id.0 as int, pred)
}

/// Some source in `sources` names a bad source block for block `b`.
pub open spec fn has_bad_source_block(f: MirFunction, b: int, sources: Seq<(MirBlockId, MirValueId)>) -> bool {
    exists|s: int| 0 <= s < sources.len() && bad_source_block(f, b, (#[trigger] sources[s]).0.0 as int)
}

/// In block `b`, a phi names a source block that is out of range or does not jump to `b`.
pub open spec fn phi_bad_predecessor(f: MirFunction, b: int) -> bool {
    exists|k: int|
        0 <= k < f.blocks@[b].instructions@.len() && has_bad_source_block(
            f,
            b,
            phi_sources_of(#[trigger] f.blocks@[b].instructions@[k]),
        )
}

/// Value `id` is not defined.
pub open spec fn undefined(defs: Seq<(usize, MirValueType)>, id: MirValueId) -> bool {
    lookup(defs, id.0) is None
}

/// Some operand of `v` is not defined.
pub open spec fn value_has_undefined_operand(v: MirValue, defs: Seq<(usize, MirValueType)>) -> bool {
    match v {
        MirValue::Unary { operand, .. } => undefined(defs, operand),
        MirValue::Cast { value, .. } => undefined(defs, value),
        MirValue::Binary { left, right, .. } => undefined(defs, left) || undefined(defs, right),
        MirValue::Assign { target, value, .. } => undefined(defs, target) || undefined(defs, value),
        MirValue::LocalSet { value, .. } => undefined(defs, value),
        MirValue::Call { callee, args } => undefined(defs, callee) || exists|i: int|
            0 <= i < args@.len() && undefined(defs, #[trigger] args@[i]),
        MirValue::ErrorStatus { value } => undefined(defs, value),
        MirValue::ErrorPayload { value } => undefined(defs, value),
        MirValue::DerefAccess { base } => undefined(defs, base),
        MirValue::FieldAccess { base, .. } => undefined(defs, base),
        MirValue::Index { base, index } => undefined(defs, base) || undefined(defs, index),
        MirValue::Slice { base, start, end, .. } => undefined(defs, base) || (start matches Some(s)
            && undefined(defs, s)) || (end matches Some(e) && undefined(defs, e)),
        MirValue::StructLiteral { fields } => exists|i: int|
            0 <= i < fields@.len() && undefined(defs, (#[trigger] fields@[i]).1),
        MirValue::EnumVariant { payload, .. } => exists|i: int|
            0 <= i < payload@.len() && undefined(defs, #[trigger] payload@[i]),
        MirValue::ClosureCreate { captures, .. } => exists|i: int|
            0 <= i < captures@.len() && undefined(defs, #[trigger] captures@[i]),
        MirValue::ClosureEnvField { env_ptr, .. } => undefined(defs, env_ptr),
        MirValue::GlobalStore { value, .. } => undefined(defs, value),
        _ => false,
    }
}

/// A phi of type `ty` has a source value that is undefined or of an incompatible type.
pub open spec fn phi_sources_bad(sources: Seq<(MirBlockId, MirValueId)>, ty: MirValueType, defs: Seq<(usize, MirValueType)>) -> bool {
    exists|s: int|
        0 <= s < sources.len() && match lookup(defs, (#[trigger] sources[s]).1.0) {
            None => true,
            Some(t) => !spec_types_compatible(ty, t),
        }
}

/// An instruction uses a value that is undefined or, for a phi, of an incompatible type.
pub open spec fn instr_use_error(ins: MirInstr, defs: Seq<(usize, MirValueType)>) -> bool {
    match ins {
        MirInstr::Eval { value, .. } => value_has_undefined_operand(value, defs),
        MirInstr::Phi { sources, ty, .. } => phi_sources_bad(sources@, ty, defs),
    }
}

/// A terminator returns an undefined value, or branches on an undefined or non-scalar one.
pub open spec fn terminator_use_error(t: Option<MirTerminator>, defs: Seq<(usize, MirValueType)>) -> bool {
    match t {
        Some(MirTerminator::Return(Some(v))) => undefined(defs, v),
        Some(MirTerminator::Branch { condition, .. }) => match lookup(defs, condition.0) {
            None => true,
            Some(t) => !(t is Bool || t is Int || t is BytesSlice),
        },
        _ => false,
    }
}

/// Block `b` uses a value wrongly.
pub open spec fn block_use_error(f: MirFunction, b: int) -> bool {
    (exists|k: int|
        0 <= k < f.blocks@[b].instructions@.len() && instr_use_error(
            #[trigger] f.blocks@[b].instructions@[k],
            fn_defs(f),
        )) || terminator_use_error(f.blocks@[b].terminator, fn_defs(f))
}

/// Block `b` has a value-level fault.
pub open spec fn block_value_error(f: MirFunction, b: int) -> bool {
    phi_after_eval(f, b) || phi_bad_predecessor(f, b) || block_use_error(f, b)
}

/// The function's values are faulty (reported with code E5003).
pub open spec fn value_error(f: MirFunction) -> bool {
    f.blocks@.len() > 0 && (has_duplicate_def(fn_defs(f)) || exists|b: int|
        0 <= b < f.blocks@.len() && #[trigger] block_value_error(f, b))
}

/// The function is well formed.
pub open spec fn function_well_formed(f: MirFunction) -> bool {
    !structure_error(f) && !value_error(f)
}

/// Every function of every module is well formed.
pub open spec fn program_well_formed(p: MirProgram) -> bool {
    forall|m: int, i: int|
        0 <= m < p.modules@.len() && 0 <= i < p.modules@[m].functions@.len() ==> function_well_formed(
            #[trigger] p.modules@[m].functions@[i],
        )
}

/// Every diagnostic is a MIR error with code E5001 or E5003 and no label.
pub open spec fn all_mir_errors(ds: Seq<Diagnostic>) -> bool {
    forall|i: int|
        0 <= i < ds.len() ==> (#[trigger] ds[i]).phase == DiagnosticPhase::Mir && ds[i].severity
            == Severity::Error && (ds[i].code == DiagnosticCode::E5001 || ds[i].code
            == DiagnosticCode::E5003) && ds[i].primary_label is None
}

proof fn lemma_has_code_push(ds: Seq<Diagnostic>, d: Diagnostic, c: DiagnosticCode)
    ensures
        has_code(ds.push(d), c) == (has_code(ds, c) || d.code == c),
{
    if has_code(ds, c) {
        let i = choose|i: int| 0 <= i < ds.len() && (#[trigger] ds[i]).code == c;
        assert(ds.push(d)[i] == ds[i]);
    }
    if d.code == c {
        assert(ds.push(d)[ds.len() as int] == d);
    }
    if has_code(ds.push(d), c) {
        let i = choose|i: int| 0 <= i < ds.push(d).len() && (#[trigger] ds.push(d)[i]).code == c;
        if i < ds.len() {
            assert(ds[i] == ds.push(d)[i]);
        }
    }
}

proof fn lemma_has_code_concat(a: Seq<Diagnostic>, b: Seq<Diagnostic>, c: DiagnosticCode)
    ensures
        has_code(a + b, c) == (has_code(a, c) || has_code(b, c)),
{
    if has_code(a, c) {
        let i = choose|i: int| 0 <= i < a.len() && (#[trigger] a[i]).code == c;
        assert((a + b)[i] == a[i]);
    }
    if has_code(b, c) {
        let i = choose|i: int| 0 <= i < b.len() && (#[trigger] b[i]).code == c;
        assert((a + b)[a.len() + i] == b[i]);
    }
    if has_code(a + b, c) {
        let i = choose|i: int| 0 <= i < (a + b).len() && (#[trigger] (a + b)[i]).code == c;
        if i < a.len() {
            assert(a[i] == (a + b)[i]);
        } else {
            assert(b[i - a.len()] == (a + b)[i]);
        }
    }
}

/// `b` is `a` with diagnostics added at its end.
pub open spec fn kept_prefix(a: Seq<Diagnostic>, b: Seq<Diagnostic>) -> bool {
    a.len() <= b.len() && forall|k: int| 0 <= k < a.len() ==> #[trigger] b[k] == a[k]
}

/// What a diagnostic says: its code and its message.
pub open spec fn entry_of(d: Diagnostic) -> (DiagnosticCode, Seq<char>) {
    (d.code, d.message@)
}

/// What each diagnostic of a list says, in order.
pub open spec fn entries(ds: Seq<Diagnostic>) -> Seq<(DiagnosticCode, Seq<char>)> {
    ds.map_values(|d: Diagnostic| entry_of(d))
}

/// `MIR function '<name>' <text>`.
pub open spec fn fn_msg(name: Seq<char>, text: Seq<char>) -> Seq<char> {
    "MIR function '"@ + name + "' "@ + text
}

/// `MIR function '<name>' <text> #<n>`.
pub open spec fn num_msg(name: Seq<char>, text: Seq<char>, n: usize) -> Seq<char> {
    fn_msg(name, text) + " #"@ + spec_decimal(n as nat)
}

/// `MIR function '<name>' <text> #<n> <middle> #<k>`.
pub open spec fn num2_msg(name: Seq<char>, text: Seq<char>, n: usize, middle: Seq<char>, k: usize) -> Seq<char> {
    num_msg(name, text, n) + " "@ + middle + " #"@ + spec_decimal(k as nat)
}

/// One E5001 entry.
pub open spec fn structural(msg: Seq<char>) -> Seq<(DiagnosticCode, Seq<char>)> {
    seq![(DiagnosticCode::E5001, msg)]
}

/// One E5003 entry.
pub open spec fn valued(msg: Seq<char>) -> Seq<(DiagnosticCode, Seq<char>)> {
    seq![(DiagnosticCode::E5003, msg)]
}

/// No entry.
pub open spec fn no_entries() -> Seq<(DiagnosticCode, Seq<char>)> {
    Seq::empty()
}

/// What the terminator pass reports for block `b`.
pub open spec fn terminator_diags(f: MirFunction, b: int) -> Seq<(DiagnosticCode, Seq<char>)> {
    let n = f.blocks@.len();
    let name = f.name@;
    match f.blocks@[b].terminator {
        None => structural(num_msg(name, "has an unterminated block"@, f.blocks@[b].id.0)),
        Some(MirTerminator::Goto(t)) => if t.0 >= n {
            structural(num_msg(name, "has goto to invalid block"@, t.0))
        } else {
            no_entries()
        },
        Some(MirTerminator::Branch { then_block, else_block, .. }) => (if then_block.0 >= n {
            structural(num_msg(name, "has branch to invalid then block"@, then_block.0))
        } else {
            no_entries()
        }) + (if else_block.0 >= n {
            structural(num_msg(name, "has branch to invalid else block"@, else_block.0))
        } else {
            no_entries()
        }),
        _ => no_entries(),
    }
}

/// What the terminator pass reports for the first `k` blocks.
pub open spec fn terminators_diags(f: MirFunction, k: int) -> Seq<(DiagnosticCode, Seq<char>)>
    decreases k,
{
    if k <= 0 { no_entries() } else { terminators_diags(f, k - 1) + terminator_diags(f, k - 1) }
}

/// What is reported of one phi source block in block `b`.
pub open spec fn phi_source_diag(f: MirFunction, b: int, pred: usize) -> Seq<(DiagnosticCode, Seq<char>)> {
    let id = f.blocks@[b].id.0;
    if pred >= f.blocks@.len() {
        valued(num2_msg(f.name@, "has phi in block"@, id, "with invalid predecessor"@, pred))
    } else if !is_predecessor(f, id as int, pred as int) {
        valued(num2_msg(f.name@, "has phi in block"@, id, "with non-predecessor source block"@, pred))
    } else {
        no_entries()
    }
}

/// What is reported of the first `k` source blocks of a phi in block `b`.
pub open spec fn phi_sources_diags(f: MirFunction, b: int, sources: Seq<(MirBlockId, MirValueId)>, k: int) -> Seq<(DiagnosticCode, Seq<char>)>
    decreases k,
{
    if k <= 0 {
        no_entries()
    } else {
        phi_sources_diags(f, b, sources, k - 1) + phi_source_diag(f, b, sources[k - 1].0.0)
    }
}

/// What is reported when `dest` is already among `defs`.
pub open spec fn redefinition_diag(name: Seq<char>, defs: Seq<(usize, MirValueType)>, dest: usize) -> Seq<(DiagnosticCode, Seq<char>)> {
    if lookup(defs, dest) is Some { valued(num_msg(name, "redefines value id"@, dest)) } else { no_entries() }
}

/// What the definition pass reports of one instruction of block `b`, given
/// the definitions before it and whether an ordinary instruction came before
/// it in the block.
pub open spec fn instr_def_diags(f: MirFunction, b: int, ins: MirInstr, defs: Seq<(usize, MirValueType)>, saw: bool) -> Seq<(DiagnosticCode, Seq<char>)> {
    let name = f.name@;
    let id = f.blocks@[b].id.0;
    match ins {
        MirInstr::Eval { dest, .. } => redefinition_diag(name, defs, dest.0),
        MirInstr::Phi { dest, sources, .. } => (if saw {
            valued(num_msg(name, "has phi after non-phi in block"@, id))
        } else {
            no_entries()
        }) + (if sources@.len() == 0 {
            structural(num_msg(name, "has phi in block"@, id) + " with no sources"@)
        } else {
            no_entries()
        }) + phi_sources_diags(f, b, sources@, sources@.len() as int) + redefinition_diag(name, defs, dest.0),
    }
}

/// Some of the first `k` instructions is ordinary (not a phi).
pub open spec fn saw_eval(instrs: Seq<MirInstr>, k: int) -> bool {
    exists|j: int| 0 <= j < k && (#[trigger] instrs[j]) is Eval
}

/// What the definition pass reports of the first `k` instructions of block
/// `b`, the definitions before the block being `d0`.
pub open spec fn instrs_def_diags(f: MirFunction, b: int, d0: Seq<(usize, MirValueType)>, k: int) -> Seq<(DiagnosticCode, Seq<char>)>
    decreases k,
{
    let instrs = f.blocks@[b].instructions@;
    if k <= 0 {
        no_entries()
    } else {
        instrs_def_diags(f, b, d0, k - 1) + instr_def_diags(
            f,
            b,
            instrs[k - 1],
            d0 + block_defs(f.blocks@[b]).take(k - 1),
            saw_eval(instrs, k - 1),
        )
    }
}

/// What the definition pass reports of block `b`.
pub open spec fn block_def_diags(f: MirFunction, b: int, d0: Seq<(usize, MirValueType)>) -> Seq<(DiagnosticCode, Seq<char>)> {
    let id = f.blocks@[b].id.0;
    (if id != b {
        structural(num2_msg(f.name@, "has mismatched block id"@, id, "at index"@, b as usize))
    } else {
        no_entries()
    }) + instrs_def_diags(f, b, d0, f.blocks@[b].instructions@.len() as int)
}

/// What the definition pass reports of the first `k` blocks.
pub open spec fn defs_diags(f: MirFunction, k: int) -> Seq<(DiagnosticCode, Seq<char>)>
    decreases k,
{
    if k <= 0 { no_entries() } else { defs_diags(f, k - 1) + block_def_diags(f, k - 1, defs_before(f.blocks@, k - 1)) }
}

/// Each of `ids` with the same description.
pub open spec fn tagged(ids: Seq<MirValueId>, what: Seq<char>) -> Seq<(MirValueId, Seq<char>)> {
    ids.map_values(|id: MirValueId| (id, what))
}

/// The operands of an ordinary instruction's value, each with how it is
/// named in a report, in the order they are checked: callee before
/// arguments; slice base, start, end.
pub open spec fn operand_list(v: MirValue) -> Seq<(MirValueId, Seq<char>)> {
    match v {
        MirValue::Unary { operand, .. } => seq![(operand, "unary operand"@)],
        MirValue::Cast { value, .. } => seq![(value, "cast source"@)],
        MirValue::Binary { left, right, .. } => seq![(left, "binary left operand"@), (right, "binary right operand"@)],
        MirValue::Assign { target, value, .. } => seq![(target, "assignment target"@), (value, "assignment value"@)],
        MirValue::LocalSet { value, .. } => seq![(value, "local set value"@)],
        MirValue::Call { callee, args } => seq![(callee, "call callee"@)] + tagged(args@, "call argument"@),
        MirValue::ErrorStatus { value } => seq![(value, "error status source"@)],
        MirValue::ErrorPayload { value } => seq![(value, "error payload source"@)],
        MirValue::DerefAccess { base } => seq![(base, "deref base"@)],
        MirValue::FieldAccess { base, .. } => seq![(base, "field access base"@)],
        MirValue::Index { base, index } => seq![(base, "index base"@), (index, "index value"@)],
        MirValue::Slice { base, start, end, .. } => seq![(base, "slice base"@)] + (match start {
            Some(st) => seq![(st, "slice start"@)],
            None => Seq::empty(),
        }) + (match end {
            Some(e) => seq![(e, "slice end"@)],
            None => Seq::empty(),
        }),
        MirValue::StructLiteral { fields } => fields@.map_values(|fl: (String, MirValueId)| (fl.1, "struct field value"@)),
        MirValue::EnumVariant { payload, .. } => tagged(payload@, "enum payload value"@),
        MirValue::ClosureCreate { captures, .. } => tagged(captures@, "closure capture"@),
        MirValue::ClosureEnvField { env_ptr, .. } => seq![(env_ptr, "closure environment"@)],
        MirValue::GlobalStore { value, .. } => seq![(value, "global store value"@)],
        _ => Seq::empty(),
    }
}

/// What is reported of one operand: nothing when it is defined.
pub open spec fn operand_diag(name: Seq<char>, op: (MirValueId, Seq<char>), defs: Seq<(usize, MirValueType)>) -> Seq<(DiagnosticCode, Seq<char>)> {
    if undefined(defs, op.0) {
        valued(fn_msg(name, "references undefined "@) + op.1 + " value #"@ + spec_decimal(op.0.0 as nat))
    } else {
        no_entries()
    }
}

/// What is reported of the first `k` operands.
pub open spec fn operands_diags(name: Seq<char>, ops: Seq<(MirValueId, Seq<char>)>, defs: Seq<(usize, MirValueType)>, k: int) -> Seq<(DiagnosticCode, Seq<char>)>
    decreases k,
{
    if k <= 0 { no_entries() } else { operands_diags(name, ops, defs, k - 1) + operand_diag(name, ops[k - 1], defs) }
}

/// What is reported of one phi source value.
pub open spec fn phi_use_diag(name: Seq<char>, ty: MirValueType, defs: Seq<(usize, MirValueType)>, v: MirValueId) -> Seq<(DiagnosticCode, Seq<char>)> {
    match lookup(defs, v.0) {
        Some(st) => if !spec_types_compatible(ty, st) {
            valued(num_msg(name, "has phi with incompatible source type for value"@, v.0))
        } else {
            no_entries()
        },
        None => valued(num_msg(name, "has phi referencing undefined value"@, v.0)),
    }
}

/// What is reported of the first `k` source values of a phi.
pub open spec fn phi_uses_diags(name: Seq<char>, ty: MirValueType, defs: Seq<(usize, MirValueType)>, sources: Seq<(MirBlockId, MirValueId)>, k: int) -> Seq<(DiagnosticCode, Seq<char>)>
    decreases k,
{
    if k <= 0 {
        no_entries()
    } else {
        phi_uses_diags(name, ty, defs, sources, k - 1) + phi_use_diag(name, ty, defs, sources[k - 1].1)
    }
}

/// What the use pass reports of one instruction.
pub open spec fn instr_use_diags(name: Seq<char>, ins: MirInstr, defs: Seq<(usize, MirValueType)>) -> Seq<(DiagnosticCode, Seq<char>)> {
    match ins {
        MirInstr::Eval { value, .. } => operands_diags(name, operand_list(value), defs, operand_list(value).len() as int),
        MirInstr::Phi { sources, ty, .. } => phi_uses_diags(name, ty, defs, sources@, sources@.len() as int),
    }
}

/// What the use pass reports of the first `k` instructions of block `b`.
pub open spec fn instrs_use_diags(f: MirFunction, b: int, defs: Seq<(usize, MirValueType)>, k: int) -> Seq<(DiagnosticCode, Seq<char>)>
    decreases k,
{
    if k <= 0 {
        no_entries()
    } else {
        instrs_use_diags(f, b, defs, k - 1) + instr_use_diags(f.name@, f.blocks@[b].instructions@[k - 1], defs)
    }
}

/// What the use pass reports of block `b`'s terminator.
pub open spec fn terminator_use_diags(f: MirFunction, b: int, defs: Seq<(usize, MirValueType)>) -> Seq<(DiagnosticCode, Seq<char>)> {
    let name = f.name@;
    let id = f.blocks@[b].id.0;
    match f.blocks@[b].terminator {
        Some(MirTerminator::Return(Some(v))) => if lookup(defs, v.0) is None {
            valued(num2_msg(name, "returns undefined value"@, v.0, "in block"@, id))
        } else {
            no_entries()
        },
        Some(MirTerminator::Branch { condition, .. }) => match lookup(defs, condition.0) {
            Some(MirValueType::Bool) | Some(MirValueType::Int { .. }) | Some(MirValueType::BytesSlice) => no_entries(),
            Some(_) => valued(num2_msg(name, "has non-scalar branch condition value"@, condition.0, "in block"@, id)),
            None => valued(num2_msg(name, "has branch on undefined value"@, condition.0, "in block"@, id)),
        },
        _ => no_entries(),
    }
}

/// What the use pass reports of block `b`.
pub open spec fn block_use_diags(f: MirFunction, b: int, defs: Seq<(usize, MirValueType)>) -> Seq<(DiagnosticCode, Seq<char>)> {
    instrs_use_diags(f, b, defs, f.blocks@[b].instructions@.len() as int) + terminator_use_diags(f, b, defs)
}

/// What the use pass reports of the first `k` blocks.
pub open spec fn uses_diags(f: MirFunction, k: int) -> Seq<(DiagnosticCode, Seq<char>)>
    decreases k,
{
    if k <= 0 { no_entries() } else { uses_diags(f, k - 1) + block_use_diags(f, k - 1, fn_defs(f)) }
}

/// What is reported of one function, in order: a function without blocks
/// gets only that report; otherwise the entry block, then the terminators,
/// then the definitions block by block, then the uses block by block.
pub open spec fn function_diags(f: MirFunction) -> Seq<(DiagnosticCode, Seq<char>)> {
    let n = f.blocks@.len();
    if n == 0 {
        structural(fn_msg(f.name@, "has no basic blocks"@))
    } else {
        (if f.entry.0 >= n { structural(fn_msg(f.name@, "has an invalid entry block"@)) } else { no_entries() })
            + terminators_diags(f, n as int) + defs_diags(f, n as int) + uses_diags(f, n as int)
    }
}

/// What is reported of the first `k` functions.
pub open spec fn functions_diags(fs: Seq<MirFunction>, k: int) -> Seq<(DiagnosticCode, Seq<char>)>
    decreases k,
{
    if k <= 0 { no_entries() } else { functions_diags(fs, k - 1) + function_diags(fs[k - 1]) }
}

/// What is reported of the first `k` modules, function by function.
pub open spec fn modules_diags(ms: Seq<MirModule>, k: int) -> Seq<(DiagnosticCode, Seq<char>)>
    decreases k,
{
    if k <= 0 {
        no_entries()
    } else {
        modules_diags(ms, k - 1) + functions_diags(ms[k - 1].functions@, ms[k - 1].functions@.len() as int)
    }
}

/// Appends a MIR error with `code` and `message`.
fn report(ds: &mut Vec<Diagnostic>, code: DiagnosticCode, message: String)
    requires
        code == DiagnosticCode::E5001 || code == DiagnosticCode::E5003,
    ensures
        all_mir_errors(old(ds)@) ==> all_mir_errors(final(ds)@),
        has_code(final(ds)@, DiagnosticCode::E5001) == (has_code(old(ds)@, DiagnosticCode::E5001)
            || code == DiagnosticCode::E5001),
        has_code(final(ds)@, DiagnosticCode::E5003) == (has_code(old(ds)@, DiagnosticCode::E5003)
            || code == DiagnosticCode::E5003),
        entries(final(ds)@) == entries(old(ds)@).push((code, message@)),
        kept_prefix(old(ds)@, final(ds)@),
        final(ds)@.last().phase == DiagnosticPhase::Mir && final(ds)@.last().severity == Severity::Error
            && final(ds)@.last().primary_label is None,
{
    let d = Diagnostic::error(DiagnosticPhase::Mir, code, message);
    let ghost before = ds@;
    ds.push(d);
    proof {
        assert(entries(ds@) =~= entries(before).push((code, d.message@)));
        lemma_has_code_push(before, d, DiagnosticCode::E5001);
        lemma_has_code_push(before, d, DiagnosticCode::E5003);
        assert forall|i: int| 0 <= i < ds@.len() && all_mir_errors(before) implies (#[trigger] ds@[i]).phase
            == DiagnosticPhase::Mir && ds@[i].severity == Severity::Error && (ds@[i].code
            == DiagnosticCode::E5001 || ds@[i].code == DiagnosticCode::E5003) && ds@[i].primary_label is None by {
            if i < before.len() {
                assert(ds@[i] == before[i]);
            }
        }
    }
}

/// `MIR function '<name>' ` followed by `text`.
fn function_message(name: &String, text: &str) -> (r: String)
    ensures
        r@ == fn_msg(name@, text@),
{
    let mut m = string_from_str("MIR function '");
    push_string(&mut m, name);
    push_str(&mut m, "' ");
    push_str(&mut m, text);
    m
}

/// A message that ends with ` #<n>`.
fn numbered_message(name: &String, text: &str, n: usize) -> (r: String)
    ensures
        r@ == num_msg(name@, text@, n),
{
    let mut m = function_message(name, text);
    push_str(&mut m, " #");
    push_decimal(&mut m, n as u64);
    m
}

/// A message with two numbers: `<text> #<n> <middle> #<k>`.
fn twice_numbered_message(name: &String, text: &str, n: usize, middle: &str, k: usize) -> (r: String)
    ensures
        r@ == num2_msg(name@, text@, n, middle@, k),
{
    let mut m = numbered_message(name, text, n);
    push_str(&mut m, " ");
    push_str(&mut m, middle);
    push_str(&mut m, " #");
    push_decimal(&mut m, k as u64);
    m
}

/// Whether two value types may meet in a phi.
pub fn types_compatible(expected: &MirValueType, actual: &MirValueType) -> (r: bool)
    ensures
        r == spec_types_compatible(*expected, *actual),
{
    if *expected == *actual {
        return true;
    }
    match (expected, actual) {
        (MirValueType::Unknown, _) | (_, MirValueType::Unknown) => true,
        (MirValueType::Int { .. }, MirValueType::Int { .. })
        | (MirValueType::Float { .. }, MirValueType::Float { .. })
        | (MirValueType::Bool, MirValueType::Int { .. })
        | (MirValueType::Int { .. }, MirValueType::Bool)
        | (MirValueType::BytesSlice, MirValueType::BytesSlice)
        | (MirValueType::BytesSlice, MirValueType::Int { .. })
        | (MirValueType::Int { .. }, MirValueType::BytesSlice)
        | (MirValueType::FunctionPointer, MirValueType::Function)
        | (MirValueType::Function, MirValueType::FunctionPointer)
        | (MirValueType::FunctionPointer, MirValueType::Int { .. })
        | (MirValueType::Int { .. }, MirValueType::FunctionPointer) => true,
        _ => false,
    }
}

/// The type of value `id` by its last definition in `defs`.
fn lookup_def(defs: &Vec<(usize, MirValueType)>, id: usize) -> (r: Option<MirValueType>)
    ensures
        r == lookup(defs@, id),
{
    let mut i = defs.len();
    assert(defs@.subrange(0, defs@.len() as int) =~= defs@);
    while i > 0
        invariant
            i <= defs@.len(),
            lookup(defs@, id) == lookup(defs@.subrange(0, i as int), id),
        decreases i,
    {
        let ghost prefix = defs@.subrange(0, i as int);
        assert(prefix.drop_last() =~= defs@.subrange(0, i - 1));
        if defs[i - 1].0 == id {
            return Some(defs[i - 1].1);
        }
        i = i - 1;
    }
    assert(defs@.subrange(0, 0).len() == 0);
    None
}

proof fn lemma_lookup_some(defs: Seq<(usize, MirValueType)>, id: usize)
    ensures
        (lookup(defs, id) is Some) == (exists|i: int| 0 <= i < defs.len() && (#[trigger] defs[i]).0 == id),
    decreases defs.len(),
{
    if defs.len() > 0 {
        lemma_lookup_some(defs.drop_last(), id);
        if exists|i: int| 0 <= i < defs.len() && (#[trigger] defs[i]).0 == id {
            let i = choose|i: int| 0 <= i < defs.len() && (#[trigger] defs[i]).0 == id;
            if i < defs.len() - 1 {
                assert(defs.drop_last()[i] == defs[i]);
            }
        }
        if exists|i: int| 0 <= i < defs.drop_last().len() && (#[trigger] defs.drop_last()[i]).0 == id {
            let i = choose|i: int| 0 <= i < defs.drop_last().len() && (#[trigger] defs.drop_last()[i]).0 == id;
            assert(defs[i] == defs.drop_last()[i]);
        }
    }
}

proof fn lemma_duplicate_push(defs: Seq<(usize, MirValueType)>, x: (usize, MirValueType))
    ensures
        has_duplicate_def(defs.push(x)) == (has_duplicate_def(defs) || lookup(defs, x.0) is Some),
{
    lemma_lookup_some(defs, x.0);
    let d2 = defs.push(x);
    if has_duplicate_def(d2) {
        let (i, j) = choose|i: int, j: int| 0 <= i < j < d2.len() && d2[i].0 == d2[j].0;
        if j < defs.len() {
            assert(defs[i] == d2[i] && defs[j] == d2[j]);
        } else {
            assert(defs[i] == d2[i]);
        }
    }
    if has_duplicate_def(defs) {
        let (i, j) = choose|i: int, j: int| 0 <= i < j < defs.len() && defs[i].0 == defs[j].0;
        assert(d2[i] == defs[i] && d2[j] == defs[j]);
    }
    if lookup(defs, x.0) is Some {
        let i = choose|i: int| 0 <= i < defs.len() && (#[trigger] defs[i]).0 == x.0;
        assert(d2[i] == defs[i] && d2[defs.len() as int] == x);
    }
}

/// Whether the block numbered `pred` jumps to the block at index `target`.
fn jumps_to(function: &MirFunction, target: usize, pred: usize) -> (r: bool)
    ensures
        r == is_predecessor(*function, target as int, pred as int),
{
    let n = function.blocks.len();
    if target >= n {
        return false;
    }
    let mut b: usize = 0;
    while b < n
        invariant
            n == function.blocks@.len(),
            target < n,
            b <= n,
            forall|c: int|
                0 <= c < b ==> !(targets_opt((#[trigger] function.blocks@[c]).terminator, target as int)
                    && function.blocks@[c].id.0 == pred),
        decreases n - b,
    {
        let block = &function.blocks[b];
        let hit = match &block.terminator {
            Some(MirTerminator::Goto(t)) => t.0 == target,
            Some(MirTerminator::Branch { then_block, else_block, .. }) => then_block.0 == target
                || else_block.0 == target,
            _ => false,
        };
        if hit && block.id.0 == pred {
            assert(targets_opt(function.blocks@[b as int].terminator, target as int));
            return true;
        }
        b = b + 1;
    }
    false
}

/// Pass over the terminators: each block ends in a terminator whose targets exist.
fn check_terminators(function: &MirFunction) -> (r: Vec<Diagnostic>)
    ensures
        all_mir_errors(r@),
        has_code(r@, DiagnosticCode::E5001) == exists|b: int|
            0 <= b < function.blocks@.len() && #[trigger] terminator_error(*function, b),
        !has_code(r@, DiagnosticCode::E5003),
        entries(r@) == terminators_diags(*function, function.blocks@.len() as int),
{
    let mut ds: Vec<Diagnostic> = Vec::new();
    let n = function.blocks.len();
    let mut i: usize = 0;
    assert(entries(ds@) =~= terminators_diags(*function, 0));
    while i < n
        invariant
            n == function.blocks@.len(),
            i <= n,
            entries(ds@) == terminators_diags(*function, i as int),
            all_mir_errors(ds@),
            has_code(ds@, DiagnosticCode::E5001) == exists|b: int|
                0 <= b < i && #[trigger] terminator_error(*function, b),
            !has_code(ds@, DiagnosticCode::E5003),
        decreases n - i,
    {
        let block = &function.blocks[i];
        let ghost before = has_code(ds@, DiagnosticCode::E5001);
        let ghost e0 = entries(ds@);
        match &block.terminator {
            None => {
                let m = numbered_message(&function.name, "has an unterminated block", block.id.0);
                report(&mut ds, DiagnosticCode::E5001, m);
            },
            Some(MirTerminator::Goto(target)) => {
                if target.0 >= n {
                    let m = numbered_message(&function.name, "has goto to invalid block", target.0);
                    report(&mut ds, DiagnosticCode::E5001, m);
                }
            },
            Some(MirTerminator::Branch { then_block, else_block, .. }) => {
                if then_block.0 >= n {
                    let m = numbered_message(&function.name, "has branch to invalid then block", then_block.0);
                    report(&mut ds, DiagnosticCode::E5001, m);
                }
                if else_block.0 >= n {
                    let m = numbered_message(&function.name, "has branch to invalid else block", else_block.0);
                    report(&mut ds, DiagnosticCode::E5001, m);
                }
            },
            _ => {},
        }
        proof {
            assert(entries(ds@) =~= e0 + terminator_diags(*function, i as int));
            assert(has_code(ds@, DiagnosticCode::E5001) == (before || terminator_error(*function, i as int)));
            if terminator_error(*function, i as int) {
                assert(exists|b: int| 0 <= b < i + 1 && #[trigger] terminator_error(*function, b));
            }
            if exists|b: int| 0 <= b < i + 1 && #[trigger] terminator_error(*function, b) {
                let b = choose|b: int| 0 <= b < i + 1 && #[trigger] terminator_error(*function, b);
                if b < i {
                    assert(exists|b: int| 0 <= b < i && #[trigger] terminator_error(*function, b));
                }
            }
        }
        i = i + 1;
    }
    ds
}

/// Reports the sources of a phi in block `b` that do not name a predecessor of `b`.
fn check_phi_source_blocks(
    function: &MirFunction,
    b: usize,
    sources: &Vec<(MirBlockId, MirValueId)>,
    ds: &mut Vec<Diagnostic>,
)
    requires
        b < function.blocks@.len(),
    ensures
        all_mir_errors(old(ds)@) ==> all_mir_errors(final(ds)@),
        has_code(final(ds)@, DiagnosticCode::E5001) == has_code(old(ds)@, DiagnosticCode::E5001),
        has_code(final(ds)@, DiagnosticCode::E5003) == (has_code(old(ds)@, DiagnosticCode::E5003)
            || has_bad_source_block(*function, b as int, sources@)),
        entries(final(ds)@) == entries(old(ds)@) + phi_sources_diags(*function, b as int, sources@, sources@.len() as int),
{
    let n = function.blocks.len();
    let block_id = function.blocks[b].id.0;
    let ghost h1 = has_code(ds@, DiagnosticCode::E5001);
    let ghost h3 = has_code(ds@, DiagnosticCode::E5003);
    let ghost ok = all_mir_errors(ds@);
    let ghost e0 = entries(ds@);
    let mut s: usize = 0;
    assert(entries(ds@) =~= e0 + phi_sources_diags(*function, b as int, sources@, 0));
    while s < sources.len()
        invariant
            entries(ds@) == e0 + phi_sources_diags(*function, b as int, sources@, s as int),
            n == function.blocks@.len(),
            b < n,
            block_id == function.blocks@[b as int].id.0,
            s <= sources@.len(),
            ok ==> all_mir_errors(ds@),
            has_code(ds@, DiagnosticCode::E5001) == h1,
            has_code(ds@, DiagnosticCode::E5003) == (h3 || exists|t: int|
                0 <= t < s && bad_source_block(*function, b as int, (#[trigger] sources@[t]).0.0 as int)),
        decreases sources.len() - s,
    {
        let pred = sources[s].0.0;
        let ghost e1 = entries(ds@);
        if pred >= n {
            let m = twice_numbered_message(&function.name, "has phi in block", block_id, "with invalid predecessor", pred);
            report(ds, DiagnosticCode::E5003, m);
        } else if !jumps_to(function, block_id, pred) {
            let m = twice_numbered_message(&function.name, "has phi in block", block_id, "with non-predecessor source block", pred);
            report(ds, DiagnosticCode::E5003, m);
        }
        proof {
            assert(entries(ds@) =~= e1 + phi_source_diag(*function, b as int, pred));
            assert(entries(ds@) =~= e0 + phi_sources_diags(*function, b as int, sources@, s + 1));
            let bad = bad_source_block(*function, b as int, sources@[s as int].0.0 as int);
            if exists|t: int| 0 <= t < s + 1 && bad_source_block(*function, b as int, (#[trigger] sources@[t]).0.0 as int) {
                let t = choose|t: int| 0 <= t < s + 1 && bad_source_block(*function, b as int, (#[trigger] sources@[t]).0.0 as int);
                if t < s {
                    assert(exists|t: int| 0 <= t < s && bad_source_block(*function, b as int, (#[trigger] sources@[t]).0.0 as int));
                }
            }
            if bad {
                assert(exists|t: int| 0 <= t < s + 1 && bad_source_block(*function, b as int, (#[trigger] sources@[t]).0.0 as int));
            }
        }
        s = s + 1;
    }
}

/// Records the definitions of block `b` and checks its ids and phis.
#[verifier::rlimit(80)]
fn check_block_definitions(
    function: &MirFunction,
    b: usize,
    defs: &mut Vec<(usize, MirValueType)>,
    ds: &mut Vec<Diagnostic>,
)
    requires
        b < function.blocks@.len(),
        has_duplicate_def(old(defs)@) ==> has_code(old(ds)@, DiagnosticCode::E5003),
    ensures
        final(defs)@ == old(defs)@ + block_defs(function.blocks@[b as int]),
        all_mir_errors(old(ds)@) ==> all_mir_errors(final(ds)@),
        has_code(final(ds)@, DiagnosticCode::E5001) == (has_code(old(ds)@, DiagnosticCode::E5001)
            || function.blocks@[b as int].id.0 != b || phi_without_sources(*function, b as int)),
        has_code(final(ds)@, DiagnosticCode::E5003) == (has_code(old(ds)@, DiagnosticCode::E5003)
            || has_duplicate_def(final(defs)@)
            || phi_after_eval(*function, b as int) || phi_bad_predecessor(*function, b as int)),
        entries(final(ds)@) == entries(old(ds)@) + block_def_diags(*function, b as int, old(defs)@),
{
    let block = &function.blocks[b];
    let ghost d0 = defs@;
    let ghost bd = block_defs(function.blocks@[b as int]);
    let ghost instrs = function.blocks@[b as int].instructions@;
    let ghost h1 = has_code(ds@, DiagnosticCode::E5001);
    let ghost h3 = has_code(ds@, DiagnosticCode::E5003);
    let ghost ok = all_mir_errors(ds@);
    let ghost e0 = entries(ds@);
    if block.id.0 != b {
        let m = twice_numbered_message(&function.name, "has mismatched block id", block.id.0, "at index", b);
        report(ds, DiagnosticCode::E5001, m);
    }
    let ghost e_id = entries(ds@);
    assert(e_id =~= e0 + (if function.blocks@[b as int].id.0 != b {
        structural(num2_msg(function.name@, "has mismatched block id"@, function.blocks@[b as int].id.0, "at index"@, b))
    } else {
        no_entries()
    }));
    let ghost h1b = has_code(ds@, DiagnosticCode::E5001);
    assert(h1b == (h1 || function.blocks@[b as int].id.0 != b));
    let mut saw_non_phi = false;
    let mut k: usize = 0;
    assert(bd.take(0) =~= Seq::<(usize, MirValueType)>::empty());
    assert(d0 + bd.take(0) =~= d0);
    while k < block.instructions.len()
        invariant
            b < function.blocks@.len(),
            *block == function.blocks@[b as int],
            instrs == block.instructions@,
            bd == block_defs(function.blocks@[b as int]),
            k <= instrs.len(),
            defs@ == d0 + bd.take(k as int),
            saw_non_phi == exists|j: int| 0 <= j < k && (#[trigger] instrs[j]) is Eval,
            entries(ds@) == e_id + instrs_def_diags(*function, b as int, d0, k as int),
            ok ==> all_mir_errors(ds@),
            has_code(ds@, DiagnosticCode::E5001) == (h1b || exists|j: int|
                0 <= j < k && (#[trigger] instrs[j]) is Phi && phi_sources_of(instrs[j]).len() == 0),
            has_duplicate_def(d0) ==> h3,
            has_code(ds@, DiagnosticCode::E5003) == (h3 || has_duplicate_def(defs@)
                || (exists|j: int, l: int| 0 <= j < l < k && (#[trigger] instrs[j]) is Eval && (#[trigger] instrs[l]) is Phi)
                || exists|l: int| 0 <= l < k && has_bad_source_block(*function, b as int, phi_sources_of(#[trigger] instrs[l]))),
        decreases block.instructions.len() - k,
    {
        let ghost prev_defs = defs@;
        let ghost prev_saw = saw_non_phi;
        let ghost p1 = has_code(ds@, DiagnosticCode::E5001);
        let ghost p3 = has_code(ds@, DiagnosticCode::E5003);
        let ghost ek = entries(ds@);
        let ins = &block.instructions[k];
        match ins {
            MirInstr::Eval { dest, ty, .. } => {
                saw_non_phi = true;
                let seen = lookup_def(defs, dest.0);
                if seen.is_some() {
                    let m = numbered_message(&function.name, "redefines value id", dest.0);
                    report(ds, DiagnosticCode::E5003, m);
                }
                assert(entries(ds@) =~= ek + redefinition_diag(function.name@, prev_defs, dest.0));
                defs.push((dest.0, *ty));
                proof { lemma_duplicate_push(prev_defs, (dest.0, *ty)); }
            },
            MirInstr::Phi { dest, sources, ty } => {
                if saw_non_phi {
                    let m = numbered_message(&function.name, "has phi after non-phi in block", block.id.0);
                    report(ds, DiagnosticCode::E5003, m);
                }
                let ghost ea = entries(ds@);
                if sources.len() == 0 {
                    let mut m = numbered_message(&function.name, "has phi in block", block.id.0);
                    push_str(&mut m, " with no sources");
                    report(ds, DiagnosticCode::E5001, m);
                }
                let ghost eb = entries(ds@);
                check_phi_source_blocks(function, b, sources, ds);
                let ghost ec = entries(ds@);
                let seen = lookup_def(defs, dest.0);
                if seen.is_some() {
                    let m = numbered_message(&function.name, "redefines value id", dest.0);
                    report(ds, DiagnosticCode::E5003, m);
                }
                proof {
                    let name = function.name@;
                    let id = function.blocks@[b as int].id.0;
                    let pa = if prev_saw { valued(num_msg(name, "has phi after non-phi in block"@, id)) } else { no_entries() };
                    let pb = if sources@.len() == 0 {
                        structural(num_msg(name, "has phi in block"@, id) + " with no sources"@)
                    } else {
                        no_entries()
                    };
                    let pc = phi_sources_diags(*function, b as int, sources@, sources@.len() as int);
                    let pd = redefinition_diag(name, prev_defs, dest.0);
                    assert(ea =~= ek + pa);
                    assert(eb =~= ea + pb);
                    assert(entries(ds@) =~= ec + pd);
                    assert(entries(ds@) =~= ek + (pa + pb + pc + pd));
                }
                defs.push((dest.0, *ty));
                proof { lemma_duplicate_push(prev_defs, (dest.0, *ty)); }
            },
        }
        proof {
            let kk = k as int;
            assert(instrs[kk] == *ins);
            assert(prev_defs == d0 + bd.take(kk));
            assert(entries(ds@) =~= ek + instr_def_diags(*function, b as int, instrs[kk], d0 + bd.take(kk), saw_eval(instrs, kk)));
            assert(entries(ds@) =~= e_id + instrs_def_diags(*function, b as int, d0, kk + 1));
            assert(bd[kk] == instr_def(instrs[kk]));
            assert(bd.take(kk + 1) =~= bd.take(kk).push(bd[kk]));
            assert(defs@ =~= d0 + bd.take(kk + 1));
            // duplicate bookkeeping: a duplicate among d0 + prefix stays one
            if has_duplicate_def(prev_defs) {
                let (i, j) = choose|i: int, j: int| 0 <= i < j < prev_defs.len() && prev_defs[i].0 == prev_defs[j].0;
                assert(defs@[i] == prev_defs[i] && defs@[j] == prev_defs[j]);
            }
            // saw_non_phi
            if exists|j: int| 0 <= j < kk + 1 && (#[trigger] instrs[j]) is Eval {
                let j = choose|j: int| 0 <= j < kk + 1 && (#[trigger] instrs[j]) is Eval;
                if j < kk {
                    assert(exists|j: int| 0 <= j < kk && (#[trigger] instrs[j]) is Eval);
                }
            }
            if instrs[kk] is Eval {
                assert(exists|j: int| 0 <= j < kk + 1 && (#[trigger] instrs[j]) is Eval);
            }
            // E5001: phis without sources
            if exists|j: int| 0 <= j < kk + 1 && (#[trigger] instrs[j]) is Phi && phi_sources_of(instrs[j]).len() == 0 {
                let j = choose|j: int| 0 <= j < kk + 1 && (#[trigger] instrs[j]) is Phi && phi_sources_of(instrs[j]).len() == 0;
                if j < kk {
                    assert(exists|j: int| 0 <= j < kk && (#[trigger] instrs[j]) is Phi && phi_sources_of(instrs[j]).len() == 0);
                }
            }
            if instrs[kk] is Phi && phi_sources_of(instrs[kk]).len() == 0 {
                assert(exists|j: int| 0 <= j < kk + 1 && (#[trigger] instrs[j]) is Phi && phi_sources_of(instrs[j]).len() == 0);
            }
            // E5003: phi after eval
            if exists|j: int, l: int| 0 <= j < l < kk + 1 && (#[trigger] instrs[j]) is Eval && (#[trigger] instrs[l]) is Phi {
                let (j, l) = choose|j: int, l: int| 0 <= j < l < kk + 1 && (#[trigger] instrs[j]) is Eval && (#[trigger] instrs[l]) is Phi;
                if l < kk {
                    assert(exists|j: int, l: int| 0 <= j < l < kk && (#[trigger] instrs[j]) is Eval && (#[trigger] instrs[l]) is Phi);
                } else {
                    assert(prev_saw);
                }
            }
            if instrs[kk] is Phi && prev_saw {
                let j = choose|j: int| 0 <= j < kk && (#[trigger] instrs[j]) is Eval;
                assert(exists|j: int, l: int| 0 <= j < l < kk + 1 && (#[trigger] instrs[j]) is Eval && (#[trigger] instrs[l]) is Phi);
            }
            // E5003: bad source blocks
            if exists|l: int| 0 <= l < kk + 1 && has_bad_source_block(*function, b as int, phi_sources_of(#[trigger] instrs[l])) {
                let l = choose|l: int| 0 <= l < kk + 1 && has_bad_source_block(*function, b as int, phi_sources_of(#[trigger] instrs[l]));
                if l < kk {
                    assert(exists|l: int| 0 <= l < kk && has_bad_source_block(*function, b as int, phi_sources_of(#[trigger] instrs[l])));
                }
            }
            if has_bad_source_block(*function, b as int, phi_sources_of(instrs[kk])) {
                assert(exists|l: int| 0 <= l < kk + 1 && has_bad_source_block(*function, b as int, phi_sources_of(#[trigger] instrs[l])));
            }
        }
        k = k + 1;
    }
    assert(bd.take(instrs.len() as int) =~= bd);
}

/// Reports `id` when it is not defined.
fn check_value(
    function_name: &String,
    id: MirValueId,
    what: &str,
    defs: &Vec<(usize, MirValueType)>,
    ds: &mut Vec<Diagnostic>,
)
    ensures
        all_mir_errors(old(ds)@) ==> all_mir_errors(final(ds)@),
        has_code(final(ds)@, DiagnosticCode::E5001) == has_code(old(ds)@, DiagnosticCode::E5001),
        has_code(final(ds)@, DiagnosticCode::E5003) == (has_code(old(ds)@, DiagnosticCode::E5003)
            || undefined(defs@, id)),
        entries(final(ds)@) == entries(old(ds)@) + operand_diag(function_name@, (id, what@), defs@),
        kept_prefix(old(ds)@, final(ds)@),
{
    if lookup_def(defs, id.0).is_none() {
        let mut m = function_message(function_name, "references undefined ");
        push_str(&mut m, what);
        push_str(&mut m, " value #");
        push_decimal(&mut m, id.0 as u64);
        report(ds, DiagnosticCode::E5003, m);
    } else {
        assert(entries(ds@) =~= entries(ds@) + no_entries());
    }
}

/// Reporting the operands `x` then `rest` reports `x` first, then `rest`.
proof fn lemma_operands_cons(
    name: Seq<char>,
    x: (MirValueId, Seq<char>),
    rest: Seq<(MirValueId, Seq<char>)>,
    defs: Seq<(usize, MirValueType)>,
    k: int,
)
    requires
        0 <= k <= rest.len(),
    ensures
        operands_diags(name, seq![x] + rest, defs, k + 1) == operand_diag(name, x, defs) + operands_diags(name, rest, defs, k),
    decreases k,
{
    let ops = seq![x] + rest;
    if k == 0 {
        assert(operands_diags(name, ops, defs, 0) == no_entries());
        assert(ops[0] == x);
        assert(operands_diags(name, ops, defs, 1) =~= operand_diag(name, x, defs) + operands_diags(name, rest, defs, 0));
    } else {
        lemma_operands_cons(name, x, rest, defs, k - 1);
        assert(ops[k] == rest[k - 1]);
        assert(operands_diags(name, ops, defs, k + 1) =~= operand_diag(name, x, defs) + operands_diags(name, rest, defs, k));
    }
}

/// Reports each undefined value in `ids`.
fn check_values(
    function_name: &String,
    ids: &Vec<MirValueId>,
    what: &str,
    defs: &Vec<(usize, MirValueType)>,
    ds: &mut Vec<Diagnostic>,
)
    ensures
        all_mir_errors(old(ds)@) ==> all_mir_errors(final(ds)@),
        has_code(final(ds)@, DiagnosticCode::E5001) == has_code(old(ds)@, DiagnosticCode::E5001),
        has_code(final(ds)@, DiagnosticCode::E5003) == (has_code(old(ds)@, DiagnosticCode::E5003)
            || exists|i: int| 0 <= i < ids@.len() && undefined(defs@, #[trigger] ids@[i])),
        entries(final(ds)@) == entries(old(ds)@) + operands_diags(function_name@, tagged(ids@, what@), defs@, ids@.len() as int),
        kept_prefix(old(ds)@, final(ds)@),
{
    let ghost d0 = ds@;
    let ghost h1 = has_code(ds@, DiagnosticCode::E5001);
    let ghost h3 = has_code(ds@, DiagnosticCode::E5003);
    let ghost ok = all_mir_errors(ds@);
    let ghost e0 = entries(ds@);
    let ghost ops = tagged(ids@, what@);
    let mut i: usize = 0;
    assert(entries(ds@) =~= e0 + operands_diags(function_name@, ops, defs@, 0));
    while i < ids.len()
        invariant
            i <= ids@.len(),
            ok ==> all_mir_errors(ds@),
            ops == tagged(ids@, what@),
            entries(ds@) == e0 + operands_diags(function_name@, ops, defs@, i as int),
            kept_prefix(d0, ds@),
            has_code(ds@, DiagnosticCode::E5001) == h1,
            has_code(ds@, DiagnosticCode::E5003) == (h3 || exists|j: int|
                0 <= j < i && undefined(defs@, #[trigger] ids@[j])),
        decreases ids.len() - i,
    {
        let ghost di = ds@;
        check_value(function_name, ids[i], what, defs, ds);
        proof {
            assert(ops[i as int] == (ids@[i as int], what@));
            assert(entries(ds@) =~= e0 + operands_diags(function_name@, ops, defs@, i + 1));
            if exists|j: int| 0 <= j < i + 1 && undefined(defs@, #[trigger] ids@[j]) {
                let j = choose|j: int| 0 <= j < i + 1 && undefined(defs@, #[trigger] ids@[j]);
                if j < i {
                    assert(exists|j: int| 0 <= j < i && undefined(defs@, #[trigger] ids@[j]));
                }
            }
            if undefined(defs@, ids@[i as int]) {
                assert(exists|j: int| 0 <= j < i + 1 && undefined(defs@, #[trigger] ids@[j]));
            }
        }
        i = i + 1;
    }
}

/// Reports each undefined operand of an ordinary instruction.
fn verify_eval_operands(
    function_name: &String,
    value: &MirValue,
    defs: &Vec<(usize, MirValueType)>,
    ds: &mut Vec<Diagnostic>,
)
    ensures
        all_mir_errors(old(ds)@) ==> all_mir_errors(final(ds)@),
        has_code(final(ds)@, DiagnosticCode::E5001) == has_code(old(ds)@, DiagnosticCode::E5001),
        has_code(final(ds)@, DiagnosticCode::E5003) == (has_code(old(ds)@, DiagnosticCode::E5003)
            || value_has_undefined_operand(*value, defs@)),
        entries(final(ds)@) == entries(old(ds)@) + operands_diags(
            function_name@,
            operand_list(*value),
            defs@,
            operand_list(*value).len() as int,
        ),
        kept_prefix(old(ds)@, final(ds)@),
{
    let ghost e0 = entries(ds@);
    let ghost d0 = ds@;
    let ghost name = function_name@;
    proof {
        reveal_with_fuel(operands_diags, 4);
    }
    match value {
        MirValue::Unary { operand, .. } => {
            check_value(function_name, *operand, "unary operand", defs, ds);
            assert(entries(ds@) =~= e0 + operands_diags(name, operand_list(*value), defs@, 1));
        },
        MirValue::Cast { value: v, .. } => {
            check_value(function_name, *v, "cast source", defs, ds);
            assert(entries(ds@) =~= e0 + operands_diags(name, operand_list(*value), defs@, 1));
        },
        MirValue::Binary { left, right, .. } => {
            check_value(function_name, *left, "binary left operand", defs, ds);
            check_value(function_name, *right, "binary right operand", defs, ds);
            assert(entries(ds@) =~= e0 + operands_diags(name, operand_list(*value), defs@, 2));
        },
        MirValue::Assign { target, value: v, .. } => {
            check_value(function_name, *target, "assignment target", defs, ds);
            check_value(function_name, *v, "assignment value", defs, ds);
            assert(entries(ds@) =~= e0 + operands_diags(name, operand_list(*value), defs@, 2));
        },
        MirValue::LocalSet { value: v, .. } => {
            check_value(function_name, *v, "local set value", defs, ds);
            assert(entries(ds@) =~= e0 + operands_diags(name, operand_list(*value), defs@, 1));
        },
        MirValue::Call { callee, args } => {
            check_value(function_name, *callee, "call callee", defs, ds);
            check_values(function_name, args, "call argument", defs, ds);
            proof {
                let rest = tagged(args@, "call argument"@);
                lemma_operands_cons(name, (*callee, "call callee"@), rest, defs@, rest.len() as int);
                assert(entries(ds@) =~= e0 + operands_diags(name, operand_list(*value), defs@, operand_list(*value).len() as int));
            }
        },
        MirValue::ErrorStatus { value: v } => {
            check_value(function_name, *v, "error status source", defs, ds);
            assert(entries(ds@) =~= e0 + operands_diags(name, operand_list(*value), defs@, 1));
        },
        MirValue::ErrorPayload { value: v } => {
            check_value(function_name, *v, "error payload source", defs, ds);
            assert(entries(ds@) =~= e0 + operands_diags(name, operand_list(*value), defs@, 1));
        },
        MirValue::DerefAccess { base } => {
            check_value(function_name, *base, "deref base", defs, ds);
            assert(entries(ds@) =~= e0 + operands_diags(name, operand_list(*value), defs@, 1));
        },
        MirValue::FieldAccess { base, .. } => {
            check_value(function_name, *base, "field access base", defs, ds);
            assert(entries(ds@) =~= e0 + operands_diags(name, operand_list(*value), defs@, 1));
        },
        MirValue::Index { base, index } => {
            check_value(function_name, *base, "index base", defs, ds);
            check_value(function_name, *index, "index value", defs, ds);
            assert(entries(ds@) =~= e0 + operands_diags(name, operand_list(*value), defs@, 2));
        },
        MirValue::Slice { base, start, end, .. } => {
            check_value(function_name, *base, "slice base", defs, ds);
            let ghost e1 = entries(ds@);
            if let Some(start) = start {
                check_value(function_name, *start, "slice start", defs, ds);
            }
            let ghost e2 = entries(ds@);
            if let Some(end) = end {
                check_value(function_name, *end, "slice end", defs, ds);
            }
            let ghost ops = operand_list(*value);
            assert(ops[0] == (*base, "slice base"@));
            assert(entries(ds@) =~= e0 + operands_diags(name, ops, defs@, ops.len() as int));
        },
        MirValue::StructLiteral { fields } => {
            let ghost h1 = has_code(ds@, DiagnosticCode::E5001);
            let ghost h3 = has_code(ds@, DiagnosticCode::E5003);
            let ghost ok = all_mir_errors(ds@);
            let ghost ops = operand_list(*value);
            let mut i: usize = 0;
            assert(entries(ds@) =~= e0 + operands_diags(name, ops, defs@, 0));
            while i < fields.len()
                invariant
                    i <= fields@.len(),
                    ok ==> all_mir_errors(ds@),
                    ops == fields@.map_values(|fl: (String, MirValueId)| (fl.1, "struct field value"@)),
                    name == function_name@,
                    entries(ds@) == e0 + operands_diags(name, ops, defs@, i as int),
                    kept_prefix(d0, ds@),
                    has_code(ds@, DiagnosticCode::E5001) == h1,
                    has_code(ds@, DiagnosticCode::E5003) == (h3 || exists|j: int|
                        0 <= j < i && undefined(defs@, (#[trigger] fields@[j]).1)),
                decreases fields.len() - i,
            {
                check_value(function_name, fields[i].1, "struct field value", defs, ds);
                proof {
                    assert(ops[i as int] == (fields@[i as int].1, "struct field value"@));
                    assert(entries(ds@) =~= e0 + operands_diags(name, ops, defs@, i + 1));
                    if exists|j: int| 0 <= j < i + 1 && undefined(defs@, (#[trigger] fields@[j]).1) {
                        let j = choose|j: int| 0 <= j < i + 1 && undefined(defs@, (#[trigger] fields@[j]).1);
                        if j < i {
                            assert(exists|j: int| 0 <= j < i && undefined(defs@, (#[trigger] fields@[j]).1));
                        }
                    }
                    if undefined(defs@, fields@[i as int].1) {
                        assert(exists|j: int| 0 <= j < i + 1 && undefined(defs@, (#[trigger] fields@[j]).1));
                    }
                }
                i = i + 1;
            }
        },
        MirValue::EnumVariant { payload, .. } => check_values(function_name, payload, "enum payload value", defs, ds),
        MirValue::ClosureCreate { captures, .. } => check_values(function_name, captures, "closure capture", defs, ds),
        MirValue::ClosureEnvField { env_ptr, .. } => {
            check_value(function_name, *env_ptr, "closure environment", defs, ds);
            assert(entries(ds@) =~= e0 + operands_diags(name, operand_list(*value), defs@, 1));
        },
        MirValue::GlobalStore { value: v, .. } => {
            check_value(function_name, *v, "global store value", defs, ds);
            assert(entries(ds@) =~= e0 + operands_diags(name, operand_list(*value), defs@, 1));
        },
        _ => {
            assert(entries(ds@) =~= e0 + operands_diags(name, operand_list(*value), defs@, 0));
        },
    }
}

/// Reports the uses in block `b`: operands, phi sources, returned and branched-on values.
fn check_block_uses(
    function: &MirFunction,
    b: usize,
    defs: &Vec<(usize, MirValueType)>,
    ds: &mut Vec<Diagnostic>,
)
    requires
        b < function.blocks@.len(),
        defs@ == fn_defs(*function),
    ensures
        all_mir_errors(old(ds)@) ==> all_mir_errors(final(ds)@),
        has_code(final(ds)@, DiagnosticCode::E5001) == has_code(old(ds)@, DiagnosticCode::E5001),
        has_code(final(ds)@, DiagnosticCode::E5003) == (has_code(old(ds)@, DiagnosticCode::E5003)
            || block_use_error(*function, b as int)),
        entries(final(ds)@) == entries(old(ds)@) + block_use_diags(*function, b as int, defs@),
{
    let block = &function.blocks[b];
    let ghost instrs = block.instructions@;
    let ghost h1 = has_code(ds@, DiagnosticCode::E5001);
    let ghost h3 = has_code(ds@, DiagnosticCode::E5003);
    let ghost ok = all_mir_errors(ds@);
    let ghost e0 = entries(ds@);
    let mut k: usize = 0;
    assert(entries(ds@) =~= e0 + instrs_use_diags(*function, b as int, defs@, 0));
    while k < block.instructions.len()
        invariant
            entries(ds@) == e0 + instrs_use_diags(*function, b as int, defs@, k as int),
            b < function.blocks@.len(),
            *block == function.blocks@[b as int],
            instrs == block.instructions@,
            defs@ == fn_defs(*function),
            k <= instrs.len(),
            ok ==> all_mir_errors(ds@),
            has_code(ds@, DiagnosticCode::E5001) == h1,
            has_code(ds@, DiagnosticCode::E5003) == (h3 || exists|j: int|
                0 <= j < k && instr_use_error(#[trigger] instrs[j], defs@)),
        decreases block.instructions.len() - k,
    {
        let ghost ek = entries(ds@);
        match &block.instructions[k] {
            MirInstr::Eval { value, .. } => {
                verify_eval_operands(&function.name, value, defs, ds);
            },
            MirInstr::Phi { sources, ty, .. } => {
                let ghost p3 = has_code(ds@, DiagnosticCode::E5003);
                let mut s: usize = 0;
                assert(entries(ds@) =~= ek + phi_uses_diags(function.name@, *ty, defs@, sources@, 0));
                while s < sources.len()
                    invariant
                        entries(ds@) == ek + phi_uses_diags(function.name@, *ty, defs@, sources@, s as int),
                        s <= sources@.len(),
                        ok ==> all_mir_errors(ds@),
                        has_code(ds@, DiagnosticCode::E5001) == h1,
                        has_code(ds@, DiagnosticCode::E5003) == (p3 || exists|t: int|
                            0 <= t < s && match lookup(defs@, (#[trigger] sources@[t]).1.0) {
                                None => true,
                                Some(st) => !spec_types_compatible(*ty, st),
                            }),
                    decreases sources.len() - s,
                {
                    let source_value = sources[s].1;
                    let ghost es = entries(ds@);
                    match lookup_def(defs, source_value.0) {
                        Some(source_ty) => {
                            if !types_compatible(ty, &source_ty) {
                                let m = numbered_message(&function.name, "has phi with incompatible source type for value", source_value.0);
                                report(ds, DiagnosticCode::E5003, m);
                            }
                        },
                        None => {
                            let m = numbered_message(&function.name, "has phi referencing undefined value", source_value.0);
                            report(ds, DiagnosticCode::E5003, m);
                        },
                    }
                    proof {
                        assert(entries(ds@) =~= es + phi_use_diag(function.name@, *ty, defs@, source_value));
                        assert(entries(ds@) =~= ek + phi_uses_diags(function.name@, *ty, defs@, sources@, s + 1));
                        let bad = |t: int| match lookup(defs@, sources@[t].1.0) {
                            None => true,
                            Some(st) => !spec_types_compatible(*ty, st),
                        };
                        if exists|t: int| 0 <= t < s + 1 && match lookup(defs@, (#[trigger] sources@[t]).1.0) {
                            None => true,
                            Some(st) => !spec_types_compatible(*ty, st),
                        } {
                            let t = choose|t: int| 0 <= t < s + 1 && match lookup(defs@, (#[trigger] sources@[t]).1.0) {
                                None => true,
                                Some(st) => !spec_types_compatible(*ty, st),
                            };
                            if t < s {
                                assert(exists|t: int| 0 <= t < s && match lookup(defs@, (#[trigger] sources@[t]).1.0) {
                                    None => true,
                                    Some(st) => !spec_types_compatible(*ty, st),
                                });
                            }
                        }
                        if bad(s as int) {
                            assert(exists|t: int| 0 <= t < s + 1 && match lookup(defs@, (#[trigger] sources@[t]).1.0) {
                                None => true,
                                Some(st) => !spec_types_compatible(*ty, st),
                            });
                        }
                    }
                    s = s + 1;
                }
            },
        }
        proof {
            assert(entries(ds@) =~= ek + instr_use_diags(function.name@, instrs[k as int], defs@));
            assert(entries(ds@) =~= e0 + instrs_use_diags(*function, b as int, defs@, k + 1));
            if exists|j: int| 0 <= j < k + 1 && instr_use_error(#[trigger] instrs[j], defs@) {
                let j = choose|j: int| 0 <= j < k + 1 && instr_use_error(#[trigger] instrs[j], defs@);
                if j < k {
                    assert(exists|j: int| 0 <= j < k && instr_use_error(#[trigger] instrs[j], defs@));
                }
            }
            if instr_use_error(instrs[k as int], defs@) {
                assert(exists|j: int| 0 <= j < k + 1 && instr_use_error(#[trigger] instrs[j], defs@));
            }
        }
        k = k + 1;
    }
    let ghost et = entries(ds@);
    match &block.terminator {
        Some(MirTerminator::Return(Some(value))) => {
            if lookup_def(defs, value.0).is_none() {
                let m = twice_numbered_message(&function.name, "returns undefined value", value.0, "in block", block.id.0);
                report(ds, DiagnosticCode::E5003, m);
            }
        },
        Some(MirTerminator::Branch { condition, .. }) => {
            match lookup_def(defs, condition.0) {
                Some(MirValueType::Bool) | Some(MirValueType::Int { .. }) | Some(MirValueType::BytesSlice) => {},
                Some(_) => {
                    let m = twice_numbered_message(&function.name, "has non-scalar branch condition value", condition.0, "in block", block.id.0);
                    report(ds, DiagnosticCode::E5003, m);
                },
                None => {
                    let m = twice_numbered_message(&function.name, "has branch on undefined value", condition.0, "in block", block.id.0);
                    report(ds, DiagnosticCode::E5003, m);
                },
            }
        },
        _ => {},
    }
    assert(entries(ds@) =~= et + terminator_use_diags(*function, b as int, defs@));
    assert(entries(ds@) =~= e0 + block_use_diags(*function, b as int, defs@));
}

/// Block `b` has a wrong id or a phi without sources.
pub open spec fn block_shape_error(f: MirFunction, b: int) -> bool {
    f.blocks@[b].id.0 != b || phi_without_sources(f, b)
}

/// Block `b` has a misplaced phi or one with a bad source block.
pub open spec fn block_phi_error(f: MirFunction, b: int) -> bool {
    phi_after_eval(f, b) || phi_bad_predecessor(f, b)
}

proof fn lemma_defs_before_step(blocks: Seq<MirBasicBlock>, i: int)
    requires
        0 <= i,
    ensures
        defs_before(blocks, i + 1) == defs_before(blocks, i) + block_defs(blocks[i]),
{
}

/// Checks one function: its structure (E5001) and its values (E5003).
fn verify_function(function: &MirFunction) -> (ds: Vec<Diagnostic>)
    ensures
        all_mir_errors(ds@),
        has_code(ds@, DiagnosticCode::E5001) == structure_error(*function),
        has_code(ds@, DiagnosticCode::E5003) == value_error(*function),
        entries(ds@) == function_diags(*function),
{
    let mut ds: Vec<Diagnostic> = Vec::new();
    let n = function.blocks.len();
    if n == 0 {
        let m = function_message(&function.name, "has no basic blocks");
        report(&mut ds, DiagnosticCode::E5001, m);
        assert(entries(ds@) =~= function_diags(*function));
        return ds;
    }
    if function.entry.0 >= n {
        let m = function_message(&function.name, "has an invalid entry block");
        report(&mut ds, DiagnosticCode::E5001, m);
    }
    let ghost entry_bad = function.entry.0 >= n;
    let ghost e_entry = entries(ds@);
    assert(e_entry =~= (if function.entry.0 >= n {
        structural(fn_msg(function.name@, "has an invalid entry block"@))
    } else {
        no_entries()
    }));
    let mut term = check_terminators(function);
    let ghost before_append = ds@;
    let ghost term_view = term@;
    ds.append(&mut term);
    assert(entries(ds@) =~= entries(before_append) + entries(term_view));
    let ghost e_t = entries(ds@);
    proof {
        lemma_has_code_concat(before_append, term_view, DiagnosticCode::E5001);
        lemma_has_code_concat(before_append, term_view, DiagnosticCode::E5003);
        assert forall|j: int| 0 <= j < ds@.len() implies (#[trigger] ds@[j]).phase == DiagnosticPhase::Mir
            && ds@[j].severity == Severity::Error && (ds@[j].code == DiagnosticCode::E5001
            || ds@[j].code == DiagnosticCode::E5003) && ds@[j].primary_label is None by {
            if j < before_append.len() {
                assert(ds@[j] == before_append[j]);
            } else {
                assert(ds@[j] == term_view[j - before_append.len()]);
            }
        }
    }
    let ghost t1 = has_code(ds@, DiagnosticCode::E5001);
    assert(t1 == (entry_bad || exists|b: int| 0 <= b < n && #[trigger] terminator_error(*function, b)));
    assert(!has_code(ds@, DiagnosticCode::E5003));

    let mut defs: Vec<(usize, MirValueType)> = Vec::new();
    let mut i: usize = 0;
    assert(entries(ds@) =~= e_t + defs_diags(*function, 0));
    while i < n
        invariant
            n == function.blocks@.len(),
            i <= n,
            entries(ds@) == e_t + defs_diags(*function, i as int),
            defs@ == defs_before(function.blocks@, i as int),
            all_mir_errors(ds@),
            has_duplicate_def(defs@) ==> has_code(ds@, DiagnosticCode::E5003),
            has_code(ds@, DiagnosticCode::E5001) == (t1 || exists|b: int|
                0 <= b < i && #[trigger] block_shape_error(*function, b)),
            has_code(ds@, DiagnosticCode::E5003) == (has_duplicate_def(defs@) || exists|b: int|
                0 <= b < i && #[trigger] block_phi_error(*function, b)),
        decreases n - i,
    {
        proof { lemma_defs_before_step(function.blocks@, i as int); }
        let ghost old_defs = defs@;
        let ghost ei = entries(ds@);
        check_block_definitions(function, i, &mut defs, &mut ds);
        proof {
            let ii = i as int;
            assert(entries(ds@) =~= e_t + defs_diags(*function, ii + 1));
            if has_duplicate_def(old_defs) {
                let (a, c) = choose|a: int, c: int| 0 <= a < c < old_defs.len() && old_defs[a].0 == old_defs[c].0;
                assert(defs@[a] == old_defs[a] && defs@[c] == old_defs[c]);
            }
            if exists|b: int| 0 <= b < ii + 1 && #[trigger] block_shape_error(*function, b) {
                let b = choose|b: int| 0 <= b < ii + 1 && #[trigger] block_shape_error(*function, b);
                if b < ii {
                    assert(exists|b: int| 0 <= b < ii && #[trigger] block_shape_error(*function, b));
                }
            }
            if block_shape_error(*function, ii) {
                assert(exists|b: int| 0 <= b < ii + 1 && #[trigger] block_shape_error(*function, b));
            }
            if exists|b: int| 0 <= b < ii + 1 && #[trigger] block_phi_error(*function, b) {
                let b = choose|b: int| 0 <= b < ii + 1 && #[trigger] block_phi_error(*function, b);
                if b < ii {
                    assert(exists|b: int| 0 <= b < ii && #[trigger] block_phi_error(*function, b));
                }
            }
            if block_phi_error(*function, ii) {
                assert(exists|b: int| 0 <= b < ii + 1 && #[trigger] block_phi_error(*function, b));
            }
        }
        i = i + 1;
    }
    let ghost t1b = has_code(ds@, DiagnosticCode::E5001);
    let ghost t3b = has_code(ds@, DiagnosticCode::E5003);
    let ghost e_d = entries(ds@);
    let mut j: usize = 0;
    assert(entries(ds@) =~= e_d + uses_diags(*function, 0));
    while j < n
        invariant
            n == function.blocks@.len(),
            j <= n,
            entries(ds@) == e_d + uses_diags(*function, j as int),
            defs@ == fn_defs(*function),
            all_mir_errors(ds@),
            has_code(ds@, DiagnosticCode::E5001) == t1b,
            has_code(ds@, DiagnosticCode::E5003) == (t3b || exists|b: int|
                0 <= b < j && #[trigger] block_use_error(*function, b)),
        decreases n - j,
    {
        check_block_uses(function, j, &defs, &mut ds);
        proof {
            let jj = j as int;
            assert(entries(ds@) =~= e_d + uses_diags(*function, jj + 1));
            if exists|b: int| 0 <= b < jj + 1 && #[trigger] block_use_error(*function, b) {
                let b = choose|b: int| 0 <= b < jj + 1 && #[trigger] block_use_error(*function, b);
                if b < jj {
                    assert(exists|b: int| 0 <= b < jj && #[trigger] block_use_error(*function, b));
                }
            }
            if block_use_error(*function, jj) {
                assert(exists|b: int| 0 <= b < jj + 1 && #[trigger] block_use_error(*function, b));
            }
        }
        j = j + 1;
    }
    proof {
        let f = *function;
        assert(entries(ds@) =~= function_diags(f));
        if structure_error(f) {
            if exists|b: int| 0 <= b < n && #[trigger] block_structure_error(f, b) {
                let b = choose|b: int| 0 <= b < n && #[trigger] block_structure_error(f, b);
                if terminator_error(f, b) {
                    assert(exists|b: int| 0 <= b < n && #[trigger] terminator_error(f, b));
                } else {
                    assert(block_shape_error(f, b));
                    assert(exists|b: int| 0 <= b < n && #[trigger] block_shape_error(f, b));
                }
            }
        }
        if exists|b: int| 0 <= b < n && #[trigger] terminator_error(f, b) {
            let b = choose|b: int| 0 <= b < n && #[trigger] terminator_error(f, b);
            assert(block_structure_error(f, b));
        }
        if exists|b: int| 0 <= b < n && #[trigger] block_shape_error(f, b) {
            let b = choose|b: int| 0 <= b < n && #[trigger] block_shape_error(f, b);
            assert(block_structure_error(f, b));
        }
        if value_error(f) {
            if exists|b: int| 0 <= b < n && #[trigger] block_value_error(f, b) {
                let b = choose|b: int| 0 <= b < n && #[trigger] block_value_error(f, b);
                if block_use_error(f, b) {
                    assert(exists|b: int| 0 <= b < n && #[trigger] block_use_error(f, b));
                } else {
                    assert(block_phi_error(f, b));
                    assert(exists|b: int| 0 <= b < n && #[trigger] block_phi_error(f, b));
                }
            }
        }
        if exists|b: int| 0 <= b < n && #[trigger] block_use_error(f, b) {
            let b = choose|b: int| 0 <= b < n && #[trigger] block_use_error(f, b);
            assert(block_value_error(f, b));
        }
        if exists|b: int| 0 <= b < n && #[trigger] block_phi_error(f, b) {
            let b = choose|b: int| 0 <= b < n && #[trigger] block_phi_error(f, b);
            assert(block_value_error(f, b));
        }
    }
    ds
}

proof fn lemma_modules_diags_prefix(a: Seq<MirModule>, b: Seq<MirModule>, k: int)
    requires
        0 <= k <= a.len(),
    ensures
        modules_diags(a + b, k) == modules_diags(a, k),
    decreases k,
{
    if k > 0 {
        lemma_modules_diags_prefix(a, b, k - 1);
        assert((a + b)[k - 1] == a[k - 1]);
    }
}

proof fn lemma_modules_diags_suffix(a: Seq<MirModule>, b: Seq<MirModule>, k: int)
    requires
        0 <= k <= b.len(),
    ensures
        modules_diags(a + b, a.len() + k) == modules_diags(a, a.len() as int) + modules_diags(b, k),
    decreases k,
{
    if k == 0 {
        lemma_modules_diags_prefix(a, b, a.len() as int);
        assert(modules_diags(a, a.len() as int) + modules_diags(b, 0) =~= modules_diags(a, a.len() as int));
    } else {
        lemma_modules_diags_suffix(a, b, k - 1);
        assert((a + b)[a.len() + k - 1] == b[k - 1]);
        assert(modules_diags(a + b, a.len() + k) =~= modules_diags(a, a.len() as int) + modules_diags(b, k));
    }
}

/// Verification treats modules one at a time: what is reported of the
/// modules `a` followed by `b` is what is reported of `a` followed by what is
/// reported of `b`. (No finding crosses a module or a function boundary, so
/// a value id defined in two functions is never reported as redefined.)
/// Together with `verify_mir_program`'s contract, which fixes every other
/// field of each diagnostic (a MIR error, without a label), the whole
/// diagnostics split in the same way.
pub proof fn lemma_verification_splits_over_modules(a: Seq<MirModule>, b: Seq<MirModule>)
    ensures
        modules_diags(a + b, (a + b).len() as int) == modules_diags(a, a.len() as int) + modules_diags(b, b.len() as int),
{
    lemma_modules_diags_suffix(a, b, b.len() as int);
}

/// Two lists of diagnostics say the same thing, field by field.
pub open spec fn same_diagnostics(a: Seq<Diagnostic>, b: Seq<Diagnostic>) -> bool {
    &&& a.len() == b.len()
    &&& forall|i: int| 0 <= i < a.len() ==> {
        &&& (#[trigger] a[i]).severity == b[i].severity
        &&& a[i].phase == b[i].phase
        &&& a[i].code == b[i].code
        &&& a[i].message@ == b[i].message@
        &&& a[i].primary_label == b[i].primary_label
    }
}

/// `ds` is what verifying `p` reports: unlabelled MIR errors whose codes and
/// messages are those of its modules' functions, in order.
pub open spec fn verification_of(p: MirProgram, ds: Seq<Diagnostic>) -> bool {
    &&& all_mir_errors(ds)
    &&& entries(ds) == modules_diags(p.modules@, p.modules@.len() as int)
}

/// Verifying a program whose modules are those of `a` followed by those of
/// `b` reports exactly, diagnostic for diagnostic, what verifying `a` and
/// then `b` reports: each function is checked on its own.
pub proof fn lemma_verification_concatenates(a: MirProgram, b: MirProgram, ab: MirProgram, da: Seq<Diagnostic>,
    db: Seq<Diagnostic>, dab: Seq<Diagnostic>)
    requires
        ab.modules@ == a.modules@ + b.modules@,
        verification_of(a, da),
        verification_of(b, db),
        verification_of(ab, dab),
    ensures
        same_diagnostics(dab, da + db),
{
    lemma_verification_splits_over_modules(a.modules@, b.modules@);
    let both = da + db;
    assert(entries(both) =~= entries(da) + entries(db));
    assert(entries(dab) == entries(both));
    assert(dab.len() == both.len()) by {
        assert(entries(dab).len() == dab.len());
        assert(entries(both).len() == both.len());
    }
    assert forall|i: int| 0 <= i < dab.len() implies {
        &&& (#[trigger] dab[i]).severity == both[i].severity
        &&& dab[i].phase == both[i].phase
        &&& dab[i].code == both[i].code
        &&& dab[i].message@ == both[i].message@
        &&& dab[i].primary_label == both[i].primary_label
    } by {
        assert(entries(dab)[i] == entries(both)[i]);
        if i < da.len() {
            assert(both[i] == da[i]);
        } else {
            assert(both[i] == db[i - da.len()]);
        }
    }
}

/// The function at position `i` of module `m` is faulty in the way `code` reports.
pub open spec fn function_has_code_error(p: MirProgram, m: int, i: int, code: DiagnosticCode) -> bool {
    if code == DiagnosticCode::E5001 {
        structure_error(p.modules@[m].functions@[i])
    } else if code == DiagnosticCode::E5003 {
        value_error(p.modules@[m].functions@[i])
    } else {
        false
    }
}

/// Some function of the program is faulty in the way `code` reports.
pub open spec fn program_has_code_error(p: MirProgram, code: DiagnosticCode) -> bool {
    exists|m: int, i: int|
        0 <= m < p.modules@.len() && 0 <= i < p.modules@[m].functions@.len()
            && #[trigger] function_has_code_error(p, m, i, code)
}

/// Checks every function of every module of a MIR program.
///
/// Each diagnostic is a MIR error. The list says, module by module and
/// function by function, what `function_diags` gives for each function: one
/// report per fault, in the order the checks run, each with its message.
/// There is one with code E5001 exactly when some function's control-flow
/// structure is faulty, one with code E5003 exactly when some function's
/// values are faulty, and none at all exactly when the program is well formed.
pub fn verify_mir_program(program: &MirProgram) -> (diagnostics: Vec<Diagnostic>)
    ensures
        all_mir_errors(diagnostics@),
        has_code(diagnostics@, DiagnosticCode::E5001) == program_has_code_error(*program, DiagnosticCode::E5001),
        has_code(diagnostics@, DiagnosticCode::E5003) == program_has_code_error(*program, DiagnosticCode::E5003),
        (diagnostics@.len() == 0) == program_well_formed(*program),
        entries(diagnostics@) == modules_diags(program.modules@, program.modules@.len() as int),
        verification_of(*program, diagnostics@),
{
    let mut ds: Vec<Diagnostic> = Vec::new();
    let nm = program.modules.len();
    let mut m: usize = 0;
    assert(entries(ds@) =~= modules_diags(program.modules@, 0));
    while m < nm
        invariant
            nm == program.modules@.len(),
            m <= nm,
            entries(ds@) == modules_diags(program.modules@, m as int),
            all_mir_errors(ds@),
            forall|c: DiagnosticCode| (c == DiagnosticCode::E5001 || c == DiagnosticCode::E5003) ==>
                has_code(ds@, c) == exists|mm: int, i: int|
                    0 <= mm < m && 0 <= i < program.modules@[mm].functions@.len()
                        && #[trigger] function_has_code_error(*program, mm, i, c),
        decreases nm - m,
    {
        let module = &program.modules[m];
        let nf = module.functions.len();
        let ghost before = ds@;
        let mut i: usize = 0;
        assert(entries(ds@) =~= modules_diags(program.modules@, m as int) + functions_diags(module.functions@, 0));
        while i < nf
            invariant
                entries(ds@) == modules_diags(program.modules@, m as int) + functions_diags(module.functions@, i as int),
                nm == program.modules@.len(),
                m < nm,
                *module == program.modules@[m as int],
                nf == module.functions@.len(),
                i <= nf,
                all_mir_errors(ds@),
                forall|c: DiagnosticCode| (c == DiagnosticCode::E5001 || c == DiagnosticCode::E5003) ==>
                    has_code(ds@, c) == ((exists|mm: int, k: int|
                        0 <= mm < m && 0 <= k < program.modules@[mm].functions@.len()
                            && #[trigger] function_has_code_error(*program, mm, k, c)) || exists|k: int|
                        0 <= k < i && #[trigger] function_has_code_error(*program, m as int, k, c)),
            decreases nf - i,
        {
            let mut fd = verify_function(&module.functions[i]);
            let ghost prev = ds@;
            let ghost fdv = fd@;
            ds.append(&mut fd);
            proof {
                assert(entries(ds@) =~= entries(prev) + entries(fdv));
                assert(entries(ds@) =~= modules_diags(program.modules@, m as int) + functions_diags(
                    module.functions@,
                    i + 1,
                ));
                assert forall|j: int| 0 <= j < ds@.len() implies (#[trigger] ds@[j]).phase == DiagnosticPhase::Mir
                    && ds@[j].severity == Severity::Error && (ds@[j].code == DiagnosticCode::E5001
                    || ds@[j].code == DiagnosticCode::E5003) && ds@[j].primary_label is None by {
                    if j < prev.len() {
                        assert(ds@[j] == prev[j]);
                    } else {
                        assert(ds@[j] == fdv[j - prev.len()]);
                    }
                }
                assert forall|c: DiagnosticCode| (c == DiagnosticCode::E5001 || c == DiagnosticCode::E5003) implies
                    has_code(ds@, c) == ((exists|mm: int, k: int|
                        0 <= mm < m && 0 <= k < program.modules@[mm].functions@.len()
                            && #[trigger] function_has_code_error(*program, mm, k, c)) || exists|k: int|
                        0 <= k < i + 1 && #[trigger] function_has_code_error(*program, m as int, k, c)) by {
                    lemma_has_code_concat(prev, fdv, c);
                    assert(has_code(fdv, c) == function_has_code_error(*program, m as int, i as int, c));
                    if exists|k: int| 0 <= k < i + 1 && #[trigger] function_has_code_error(*program, m as int, k, c) {
                        let k = choose|k: int| 0 <= k < i + 1 && #[trigger] function_has_code_error(*program, m as int, k, c);
                        if k < i {
                            assert(exists|k: int| 0 <= k < i && #[trigger] function_has_code_error(*program, m as int, k, c));
                        }
                    }
                    if function_has_code_error(*program, m as int, i as int, c) {
                        assert(exists|k: int| 0 <= k < i + 1 && #[trigger] function_has_code_error(*program, m as int, k, c));
                    }
                }
            }
            i = i + 1;
        }
        proof {
            assert forall|c: DiagnosticCode| (c == DiagnosticCode::E5001 || c == DiagnosticCode::E5003) implies
                has_code(ds@, c) == exists|mm: int, k: int|
                    0 <= mm < m + 1 && 0 <= k < program.modules@[mm].functions@.len()
                        && #[trigger] function_has_code_error(*program, mm, k, c) by {
                if exists|mm: int, k: int|
                    0 <= mm < m + 1 && 0 <= k < program.modules@[mm].functions@.len()
                        && #[trigger] function_has_code_error(*program, mm, k, c) {
                    let (mm, k) = choose|mm: int, k: int|
                        0 <= mm < m + 1 && 0 <= k < program.modules@[mm].functions@.len()
                            && #[trigger] function_has_code_error(*program, mm, k, c);
                    if mm < m {
                        assert(exists|mm: int, k: int|
                            0 <= mm < m && 0 <= k < program.modules@[mm].functions@.len()
                                && #[trigger] function_has_code_error(*program, mm, k, c));
                    } else {
                        assert(exists|k: int| 0 <= k < nf && #[trigger] function_has_code_error(*program, m as int, k, c));
                    }
                }
                if exists|k: int| 0 <= k < nf && #[trigger] function_has_code_error(*program, m as int, k, c) {
                    let k = choose|k: int| 0 <= k < nf && #[trigger] function_has_code_error(*program, m as int, k, c);
                    assert(function_has_code_error(*program, m as int, k, c));
                }
            }
        }
        assert(entries(ds@) =~= modules_diags(program.modules@, m + 1));
        m = m + 1;
    }
    proof {
        let p = *program;
        assert(has_code(ds@, DiagnosticCode::E5001) == program_has_code_error(p, DiagnosticCode::E5001));
        assert(has_code(ds@, DiagnosticCode::E5003) == program_has_code_error(p, DiagnosticCode::E5003));
        if ds@.len() > 0 {
            assert(has_code(ds@, ds@[0].code));
            if ds@[0].code == DiagnosticCode::E5001 {
                let (mm, k) = choose|mm: int, k: int|
                    0 <= mm < p.modules@.len() && 0 <= k < p.modules@[mm].functions@.len()
                        && #[trigger] function_has_code_error(p, mm, k, DiagnosticCode::E5001);
                assert(!function_well_formed(p.modules@[mm].functions@[k]));
            } else {
                let (mm, k) = choose|mm: int, k: int|
                    0 <= mm < p.modules@.len() && 0 <= k < p.modules@[mm].functions@.len()
                        && #[trigger] function_has_code_error(p, mm, k, DiagnosticCode::E5003);
                assert(!function_well_formed(p.modules@[mm].functions@[k]));
            }
        }
        if !program_well_formed(p) {
            let (mm, k) = choose|mm: int, k: int|
                0 <= mm < p.modules@.len() && 0 <= k < p.modules@[mm].functions@.len()
                    && !function_well_formed(#[trigger] p.modules@[mm].functions@[k]);
            if structure_error(p.modules@[mm].functions@[k]) {
                assert(function_has_code_error(p, mm, k, DiagnosticCode::E5001));
                assert(has_code(ds@, DiagnosticCode::E5001));
            } else {
                assert(function_has_code_error(p, mm, k, DiagnosticCode::E5003));
                assert(has_code(ds@, DiagnosticCode::E5003));
            }
        }
    }
    ds
}

} // verus!
