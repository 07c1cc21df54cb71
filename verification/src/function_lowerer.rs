//! The state of lowering one function to MIR: the control-flow graph under
//! construction, the SSA values defined so far with their types and
//! definitions, local bindings, loop contexts, and the analyses that read
//! back what has been built.

use vstd::prelude::*;
use vstd::string::StringSliceAdditionalSpecFns;
use crate::ast::BinaryOp;
use crate::hir::{HirLiteral, HirLiteralView};
use crate::mir::{MirBasicBlock, MirBlockId, MirFunction, MirInstr, MirTerminator, MirValue, MirValueId, MirValueType};
use crate::mir_verify::{block_defs, defs_before, fn_defs, has_duplicate_def, instr_def, phi_sources_of, structure_error};
use crate::module_resolver::{ModuleId, ModuleKey, comps, key_view, module_key_for_import, spec_module_key_for_import};
use crate::module_graph::key_equal;
use crate::diagnostics::{Diagnostic, DiagnosticCode, DiagnosticPhase, Severity};
use crate::span::SourceSpan;
use crate::lower_analysis::{
    hint_candidate, qualified_function_name, return_hint_is_errorable_aggregate, return_hint_ok_type_text, spec_hint_candidate,
    spec_hint_is_errorable_aggregate, spec_ok_type_text, spec_qualified_function_name,
};
use crate::hir::{HirExpr, HirExprKind, HirPattern};
use crate::scope_analysis::{assigned_local_names, spec_assigned};
use crate::name_set::{seq_lt, strictly_sorted, views};
use crate::text::{
    chars_of, chars_of_string, ends_with_chars, ends_with_str, push_decimal, eq_str, string_eq, spec_decimal, u64_to_string, is_suffix, push_str, spec_trim, trimmed_chars, find_char, i64_to_string, is_prefix, parse_i64, parse_i64_radix, remove_underscores, spec_int_text,
    spec_parse_i64, spec_parse_i64_radix, starts_with_str, string_eq_str, string_from_str, subvec, without_underscores,
};
use crate::lower_helpers::{
    ComptimeValue, literal_type, merge_types, parse_function_return_hint, parse_type_hint, parse_type_hint_text, spec_literal_type,
    spec_merge_types, spec_parse_function_return_hint, spec_parse_type_hint,
};

verus! {

/// The state of a loop being lowered: where `continue` and `break` jump, and
/// the values that `break`s carry out of it, with the blocks they leave from.
pub struct LoopContext {
    pub continue_target: MirBlockId,
    pub break_target: MirBlockId,
    pub break_values: Vec<(MirBlockId, MirValueId)>,
}

/// What `$target()` reports to compile-time code: whether sanitizers are
/// on, and tags for the optimisation mode (0 none, 1 basic, 2 full, 3 for
/// size), the architecture (0 x86-64, 1 AArch64) and the operating system
/// (0 Linux, 1 macOS, 2 Windows, 3 other).
#[derive(Debug, Clone, Copy, PartialEq, Eq)]
pub struct BuildTarget {
    pub sanitize: bool,
    pub mode: i64,
    pub arch: i64,
    pub os: i64,
}

/// Tables shared by all functions of a module while they are lowered.
pub struct FunctionLowererShared {
    pub named_type_literals: Vec<(String, String)>,
    pub build_target: BuildTarget,
    pub function_return_types: Vec<(String, MirValueType)>,
    pub function_return_hints: Vec<(String, Option<String>)>,
    pub function_param_type_hints: Vec<(String, Vec<Option<String>>)>,
    pub enum_repr_bits_by_name: Vec<(String, u16)>,
    pub enum_variant_tags_by_name: Vec<(String, Vec<(String, i64)>)>,
    pub function_exprs: Vec<(String, HirExpr)>,
    pub module_ids_by_key: Vec<(ModuleKey, ModuleId)>,
    pub module_exports_by_id: Vec<(ModuleId, Vec<String>)>,
}

/// The lowering state of one function.
///
/// Value ids are handed out densely from zero, so the per-value tables are
/// indexed by id: `value_types[i]` is the type of value `i`, and
/// `value_defs[i]` the block and position of the ordinary instruction that
/// defines it.
pub struct FunctionLowerer {
    pub module_key: ModuleKey,
    pub named_type_literals: Vec<(String, String)>,
    pub build_target: BuildTarget,
    /// Functions bound to compile-time locals, by the local's name.
    pub comptime_local_function_exprs: Vec<(String, HirExpr)>,
    /// The struct that encloses a member function, which `$self()` names
    /// when no parameter says otherwise.
    pub current_self_type_hint: Option<String>,
    pub source_file_path: String,
    pub function: MirFunction,
    pub next_value: usize,
    pub locals: Vec<(String, MirValueId)>,
    pub value_types: Vec<Option<MirValueType>>,
    pub value_defs: Vec<Option<(usize, usize)>>,
    pub struct_fields: Vec<(MirValueId, Vec<(String, MirValueId)>)>,
    pub aggregate_sequences: Vec<(MirValueId, Vec<MirValueId>)>,
    pub errorable_aggregate_values: Vec<MirValueId>,
    pub errorable_scalar_values: Vec<MirValueId>,
    pub function_return_types: Vec<(String, MirValueType)>,
    pub function_return_hints: Vec<(String, Option<String>)>,
    pub function_param_type_hints: Vec<(String, Vec<Option<String>>)>,
    pub enum_repr_bits_by_name: Vec<(String, u16)>,
    pub enum_variant_tags_by_name: Vec<(String, Vec<(String, i64)>)>,
    pub function_exprs: Vec<(String, HirExpr)>,
    pub module_ids_by_key: Vec<(ModuleKey, ModuleId)>,
    pub module_exports_by_id: Vec<(ModuleId, Vec<String>)>,
    pub current_param_type_hints: Vec<Option<String>>,
    pub loop_stack: Vec<LoopContext>,
    pub diagnostics: Vec<Diagnostic>,
}

/// A terminator jumps only to blocks below `n`.
pub open spec fn jumps_within(t: Option<MirTerminator>, n: nat) -> bool {
    match t {
        Some(MirTerminator::Goto(x)) => x.0 < n,
        Some(MirTerminator::Branch { then_block, else_block, .. }) => then_block.0 < n && else_block.0 < n,
        _ => true,
    }
}

/// The blocks of `f` are numbered by position, the entry is one of them, and
/// every terminator jumps to one of them.
pub open spec fn blocks_wf(f: MirFunction) -> bool {
    &&& f.blocks@.len() > 0
    &&& f.entry.0 < f.blocks@.len()
    &&& forall|b: int| 0 <= b < f.blocks@.len() ==> (#[trigger] f.blocks@[b]).id.0 == b
    &&& forall|b: int| 0 <= b < f.blocks@.len() ==> jumps_within((#[trigger] f.blocks@[b]).terminator, f.blocks@.len())
}

/// Instruction `k` of block `b` exists.
pub open spec fn valid_pos(f: MirFunction, b: int, k: int) -> bool {
    0 <= b < f.blocks@.len() && 0 <= k < f.blocks@[b].instructions@.len()
}

/// The value defined by instruction `k` of block `b`, with its type.
pub open spec fn def_at(f: MirFunction, b: int, k: int) -> (usize, MirValueType) {
    instr_def(f.blocks@[b].instructions@[k])
}

/// Every value defined in `f` is numbered below `n`.
pub open spec fn defs_below(f: MirFunction, n: nat) -> bool {
    forall|b: int, k: int| valid_pos(f, b, k) ==> (#[trigger] def_at(f, b, k)).0 < n
}

/// No two instructions of `f` define the same value.
pub open spec fn defs_distinct(f: MirFunction) -> bool {
    forall|b1: int, k1: int, b2: int, k2: int|
        #![trigger def_at(f, b1, k1), def_at(f, b2, k2)]
        valid_pos(f, b1, k1) && valid_pos(f, b2, k2) && (b1 != b2 || k1 != k2) ==> def_at(f, b1, k1).0
            != def_at(f, b2, k2).0
}

/// Every instruction's value is recorded with its type, and an ordinary
/// instruction's value with its position.
pub open spec fn defs_recorded(f: MirFunction, types: Seq<Option<MirValueType>>, defs: Seq<Option<(usize, usize)>>) -> bool {
    forall|b: int, k: int| valid_pos(f, b, k) ==> {
        let d = #[trigger] def_at(f, b, k);
        &&& d.0 < types.len()
        &&& types[d.0 as int] == Some(d.1)
        &&& (f.blocks@[b].instructions@[k] is Eval ==> d.0 < defs.len() && defs[d.0 as int] == Some((b as usize, k as usize)))
    }
}

/// Every recorded position holds the ordinary instruction that defines the value.
pub open spec fn positions_sound(f: MirFunction, defs: Seq<Option<(usize, usize)>>) -> bool {
    forall|d: int| 0 <= d < defs.len() ==> match #[trigger] defs[d] {
        Some((b, k)) => valid_pos(f, b as int, k as int) && def_at(f, b as int, k as int).0 == d
            && f.blocks@[b as int].instructions@[k as int] is Eval,
        None => true,
    }
}

/// The common type of the types recorded in `types` for the values that
/// `breaks` carry, merged left to right; `None` when none has a type.
pub open spec fn merged_types(types: Seq<Option<MirValueType>>, breaks: Seq<(MirBlockId, MirValueId)>) -> Option<MirValueType>
    decreases breaks.len(),
{
    if breaks.len() == 0 {
        None
    } else {
        let prev = merged_types(types, breaks.drop_last());
        let id = breaks.last().1.0;
        match if id < types.len() { types[id as int] } else { None } {
            None => prev,
            Some(t) => match prev {
                None => Some(t),
                Some(p) => Some(spec_merge_types(p, t)),
            },
        }
    }
}

/// `new` is `old` with `src` added to the sources of the phi at position
/// `j` of block `h`.
pub open spec fn phi_source_added(old: Seq<MirBasicBlock>, new: Seq<MirBasicBlock>, h: int, j: int, src: (MirBlockId, MirValueId)) -> bool {
    &&& new.len() == old.len()
    &&& 0 <= h < old.len()
    &&& 0 <= j < old[h].instructions@.len()
    &&& forall|i: int| 0 <= i < old.len() && i != h ==> #[trigger] new[i] == old[i]
    &&& new[h].id == old[h].id
    &&& new[h].terminator == old[h].terminator
    &&& new[h].instructions@.len() == old[h].instructions@.len()
    &&& forall|i: int| 0 <= i < old[h].instructions@.len() && i != j ==> #[trigger] new[h].instructions@[i] == old[h].instructions@[i]
    &&& old[h].instructions@[j] is Phi
    &&& new[h].instructions@[j] is Phi
    &&& instr_def(new[h].instructions@[j]) == instr_def(old[h].instructions@[j])
    &&& new[h].instructions@[j]->Phi_sources@ == old[h].instructions@[j]->Phi_sources@.push(src)
}

/// A phi defining `dest` of type `ty` with the single source `src`.
pub open spec fn single_source_phi(ins: MirInstr, dest: MirValueId, ty: MirValueType, src: (MirBlockId, MirValueId)) -> bool {
    ins matches MirInstr::Phi { dest: d, sources, ty: t } && d == dest && t == ty && sources@ == seq![src]
}

/// A recorded type, or `Unknown` when none is recorded.
pub open spec fn type_or_unknown(t: Option<MirValueType>) -> MirValueType {
    match t {
        Some(t) => t,
        None => MirValueType::Unknown,
    }
}

/// The names of an association list, in order.
pub open spec fn names_of<V>(s: Seq<(String, V)>) -> Seq<Seq<char>> {
    s.map_values(|p: (String, V)| p.0@)
}

/// The binding of `x` after binding the names of `s` in order to their
/// values, over bindings in which `x` was bound to `d`.
pub open spec fn rebind_result(s: Seq<(String, MirValueId)>, x: Seq<char>, d: Option<MirValueId>) -> Option<MirValueId>
    decreases s.len(),
{
    if s.len() == 0 {
        d
    } else if s.last().0@ == x {
        Some(s.last().1)
    } else {
        rebind_result(s.drop_last(), x, d)
    }
}

/// The sources that closing loop-carried locals `carried` adds, from
/// `backedge`, to the phi defining `dest`: for each entry naming that phi, in
/// order, the value its local had when the entry was reached (the phi itself
/// if the local was unbound). `locals` gives the bindings before closing.
pub open spec fn closing_sources(carried: Seq<(String, MirValueId)>, locals: spec_fn(Seq<char>) -> Option<MirValueId>, dest: MirValueId, backedge: MirBlockId) -> Seq<(MirBlockId, MirValueId)>
    decreases carried.len(),
{
    if carried.len() == 0 {
        Seq::empty()
    } else {
        let prev = closing_sources(carried.drop_last(), locals, dest, backedge);
        let e = carried.last();
        if e.1 == dest {
            let src = match rebind_result(carried.drop_last(), e.0@, locals(e.0@)) {
                Some(v) => v,
                None => e.1,
            };
            prev.push((backedge, src))
        } else {
            prev
        }
    }
}

/// `new` is `old` with `extra` instructions appended to block `b`.
pub open spec fn extended(old: Seq<MirBasicBlock>, new: Seq<MirBasicBlock>, b: int, extra: nat) -> bool {
    &&& new.len() == old.len()
    &&& 0 <= b < old.len()
    &&& forall|i: int| 0 <= i < old.len() && i != b ==> #[trigger] new[i] == old[i]
    &&& new[b].id == old[b].id
    &&& new[b].terminator == old[b].terminator
    &&& new[b].instructions@.len() == old[b].instructions@.len() + extra
    &&& new[b].instructions@.take(old[b].instructions@.len() as int) == old[b].instructions@
}

/// The zero of a value type, as a literal: `0.0` for floats, `false` for
/// booleans and `0` otherwise.
pub open spec fn zero_literal_for(ty: MirValueType) -> HirLiteralView {
    match ty {
        MirValueType::Float { .. } => HirLiteralView::Float(seq!['0', '.', '0']),
        MirValueType::Bool => HirLiteralView::Bool(false),
        _ => HirLiteralView::Integer(seq!['0']),
    }
}

/// `ins` computes the literal `lit` of type `ty` into `dest`.
pub open spec fn literal_eval(ins: MirInstr, dest: MirValueId, lit: HirLiteralView, ty: MirValueType) -> bool {
    ins matches MirInstr::Eval { dest: d, value: MirValue::Literal(l), ty: t } && d == dest && l@ == lit && t == ty
}

/// The value of an integer literal's text: underscores are dropped, then a
/// `0x`, `0b` or `0o` prefix selects base 16, 2 or 8 for the rest, and text
/// without one is read in base 10; `None` when the text is not a 64-bit
/// signed number.
pub open spec fn spec_literal_int(text: Seq<char>) -> Option<int> {
    let t = without_underscores(text);
    if is_prefix(seq!['0', 'x'], t) {
        spec_parse_i64_radix(t.skip(2), 16)
    } else if is_prefix(seq!['0', 'b'], t) {
        spec_parse_i64_radix(t.skip(2), 2)
    } else if is_prefix(seq!['0', 'o'], t) {
        spec_parse_i64_radix(t.skip(2), 8)
    } else {
        spec_parse_i64(t)
    }
}

/// The first value paired with `id` in a list keyed by value ids.
pub open spec fn id_find<V>(s: Seq<(MirValueId, V)>, id: MirValueId) -> Option<V>
    decreases s.len(),
{
    if s.len() == 0 {
        None
    } else if s[0].0 == id {
        Some(s[0].1)
    } else {
        id_find(s.drop_first(), id)
    }
}

/// The value computed by the ordinary instruction of `f` at the position
/// that `defs` records for value `id`.
pub open spec fn def_in(f: MirFunction, defs: Seq<Option<(usize, usize)>>, id: MirValueId) -> Option<MirValue> {
    if id.0 < defs.len() {
        match defs[id.0 as int] {
            Some((b, k)) => match f.blocks@[b as int].instructions@[k as int] {
                MirInstr::Eval { value, .. } => Some(value),
                MirInstr::Phi { .. } => None,
            },
            None => None,
        }
    } else {
        None
    }
}

/// Whether invalidating the aggregate view of `v` reaches value `x`: `v`
/// itself and, through casts, assignments and local bindings, the values it
/// passes through, at most 16 definitions deep.
pub open spec fn invalidation_reaches(f: MirFunction, defs: Seq<Option<(usize, usize)>>, v: MirValueId, depth: nat, x: MirValueId) -> bool
    decreases 17 - depth,
{
    if depth > 16 {
        false
    } else if x == v {
        true
    } else {
        match def_in(f, defs, v) {
            Some(MirValue::Cast { value, .. }) => invalidation_reaches(f, defs, value, depth + 1, x),
            Some(MirValue::Assign { value, .. }) => invalidation_reaches(f, defs, value, depth + 1, x),
            Some(MirValue::LocalSet { value, .. }) => invalidation_reaches(f, defs, value, depth + 1, x),
            _ => false,
        }
    }
}

/// `n` clamped to `0` from below.
pub open spec fn nonnegative(n: int) -> int {
    if n >= 0 { n } else { 0 }
}

/// The name of the function that value `v` refers to: an identifier, or
/// what a local binding or assignment passes on, at most 8 definitions deep.
pub open spec fn callee_name_in(f: MirFunction, defs: Seq<Option<(usize, usize)>>, v: MirValueId, depth: nat) -> Option<Seq<char>>
    decreases 9 - depth,
{
    if depth > 8 {
        None
    } else {
        match def_in(f, defs, v) {
            Some(MirValue::Ident(name)) => Some(name@),
            Some(MirValue::LocalSet { value, .. }) => callee_name_in(f, defs, value, depth + 1),
            Some(MirValue::Assign { value, .. }) => callee_name_in(f, defs, value, depth + 1),
            _ => None,
        }
    }
}

/// The value paired with the first key whose view is `k`, in a list keyed
/// by module keys.
pub open spec fn key_find<V>(s: Seq<(ModuleKey, V)>, k: (Seq<Seq<char>>, Seq<char>)) -> Option<V>
    decreases s.len(),
{
    if s.len() == 0 {
        None
    } else if key_view(s[0].0) == k {
        Some(s[0].1)
    } else {
        key_find(s.drop_first(), k)
    }
}

/// The 32-bit FNV-1a hash of `bytes`.
pub open spec fn fnv1a(bytes: Seq<u8>) -> u32
    decreases bytes.len(),
{
    if bytes.len() == 0 {
        2166136261u32
    } else {
        let h = fnv1a(bytes.drop_last()) ^ (bytes.last() as u32);
        ((h as nat * 16777619nat) % 0x1_0000_0000nat) as u32
    }
}

/// The first value paired with module `id` in a list keyed by module ids.
pub open spec fn id_lookup<V>(s: Seq<(ModuleId, V)>, id: ModuleId) -> Option<V>
    decreases s.len(),
{
    if s.len() == 0 {
        None
    } else if s[0].0 == id {
        Some(s[0].1)
    } else {
        id_lookup(s.drop_first(), id)
    }
}

/// Whether a parameter hint asks for a compile-time value: it is a type,
/// or it reads `comp type`.
pub open spec fn is_comptime_param_hint(h: Seq<char>) -> bool {
    spec_parse_type_hint(h) is Type || spec_trim(h) == seq!['c', 'o', 'm', 'p', ' ', 't', 'y', 'p', 'e']
}

/// Whether a return hint can fail with a scalar success type: it has a
/// `!`, it is no error union around an aggregate, and its success type is
/// not a byte slice.
pub open spec fn spec_hint_is_errorable_scalar(hint: Seq<char>) -> bool {
    hint.contains('!') && !spec_hint_is_errorable_aggregate(hint)
        && !(spec_parse_type_hint(spec_ok_type_text(spec_hint_candidate(hint))) is BytesSlice)
}

/// Whether some function whose name ends in `::` and `name` has a return
/// hint satisfying `p`.
pub open spec fn some_suffixed_hint(hints: Seq<(String, Option<String>)>, name: Seq<char>, p: spec_fn(Seq<char>) -> bool) -> bool {
    exists|i: int| 0 <= i < hints.len() && is_suffix(seq![':', ':'] + name, (#[trigger] hints[i]).0@)
        && (hints[i].1 matches Some(h) && p(h@))
}

/// Whether a function's return hint satisfies `p`: its own hint when it
/// has one, otherwise the hint of some function whose name ends in `::` and
/// its name.
pub open spec fn return_hint_satisfies(hints: Seq<(String, Option<String>)>, name: Seq<char>, p: spec_fn(Seq<char>) -> bool) -> bool {
    match assoc_find(hints, name) {
        Some(Some(h)) => p(h@),
        _ => some_suffixed_hint(hints, name, p),
    }
}

/// The wildcard name `_`.
pub open spec fn is_wild(n: Seq<char>) -> bool {
    n == seq!['_']
}

/// Element `k` of a recorded sequence, if there is one.
pub open spec fn seq_value_at(seq: Option<Seq<MirValueId>>, k: int) -> Option<MirValueId> {
    match seq {
        Some(s) => if 0 <= k < s.len() { Some(s[k]) } else { None },
        None => None,
    }
}

/// How many of `bindings` (binding payload slots 1, 2, ... in order) are
/// named and have no recorded element, so that their value is read by
/// indexing.
pub open spec fn fresh_slots(bindings: Seq<Seq<char>>, seq: Option<Seq<MirValueId>>) -> nat
    decreases bindings.len(),
{
    if bindings.len() == 0 {
        0
    } else {
        fresh_slots(bindings.drop_last(), seq) + if !is_wild(bindings.last()) && seq_value_at(seq, bindings.len() as int) is None {
            1nat
        } else {
            0nat
        }
    }
}

/// The values that the named `bindings` of an enum pattern take, in order,
/// when values from `next` on are fresh: the recorded element of the
/// binding's payload slot, or else the second of the two values (index
/// literal, then indexing) emitted for it.
pub open spec fn enum_bindings(bindings: Seq<Seq<char>>, seq: Option<Seq<MirValueId>>, next: nat) -> Seq<(Seq<char>, MirValueId)>
    decreases bindings.len(),
{
    if bindings.len() == 0 {
        Seq::empty()
    } else {
        let prev = enum_bindings(bindings.drop_last(), seq, next);
        if is_wild(bindings.last()) {
            prev
        } else {
            prev.push((bindings.last(), match seq_value_at(seq, bindings.len() as int) {
                Some(v) => v,
                None => MirValueId((next + 2 * fresh_slots(bindings.drop_last(), seq) + 1) as usize),
            }))
        }
    }
}

/// Names and values of a list of bindings.
pub open spec fn bindings_view(s: Seq<(String, MirValueId)>) -> Seq<(Seq<char>, MirValueId)> {
    s.map_values(|p: (String, MirValueId)| (p.0@, p.1))
}

/// For each named binding below `upto` without a recorded element, the two
/// instructions emitted for it stand at their place in `ins`: the index
/// literal, then the indexing of `scrutinee`.
#[verifier::opaque]
pub open spec fn slot_instrs(ins: Seq<MirInstr>, bs: Seq<Seq<char>>, sq: Option<Seq<MirValueId>>, n0: int, nv: int,
    scrutinee: MirValueId, upto: int) -> bool {
    forall|k: int| 0 <= k < upto && !is_wild(#[trigger] bs[k]) && seq_value_at(sq, k + 1) is None ==> {
        let m = fresh_slots(bs.take(k), sq) as int;
        &&& literal_eval(ins[n0 + 2 * m], MirValueId((nv + 2 * m) as usize),
            HirLiteralView::Integer(spec_decimal((k + 1) as nat)), MirValueType::Int { signed: false, bits: 32 })
        &&& ins[n0 + 2 * m + 1] == MirInstr::Eval { dest: MirValueId((nv + 2 * m + 1) as usize),
            value: MirValue::Index { base: scrutinee, index: MirValueId((nv + 2 * m) as usize) },
            ty: MirValueType::Unknown }
    }
}

/// The binding of `x` after binding the names of `s` in order to their
/// values, over bindings in which `x` was bound to `d`.
pub open spec fn rebind_view(s: Seq<(Seq<char>, MirValueId)>, x: Seq<char>, d: Option<MirValueId>) -> Option<MirValueId>
    decreases s.len(),
{
    if s.len() == 0 {
        d
    } else if s.last().0 == x {
        Some(s.last().1)
    } else {
        rebind_view(s.drop_last(), x, d)
    }
}

/// Names and saved previous bindings of a list of saved bindings.
pub open spec fn saved_view(s: Seq<(String, Option<MirValueId>)>) -> Seq<(Seq<char>, Option<MirValueId>)> {
    s.map_values(|p: (String, Option<MirValueId>)| (p.0@, p.1))
}

/// The first position at or after `c` whose slot is still empty (or the
/// length when there is none).
pub open spec fn skip_filled<T>(ordered: Seq<Option<T>>, c: int) -> int
    decreases ordered.len() - c,
{
    if 0 <= c < ordered.len() && ordered[c] is Some {
        skip_filled(ordered, c + 1)
    } else {
        c
    }
}

/// The position of the first parameter named `name`.
pub open spec fn first_param(params: Seq<Seq<char>>, name: Seq<char>) -> Option<int>
    decreases params.len(),
{
    if params.len() == 0 {
        None
    } else if params[0] == name {
        Some(0)
    } else {
        match first_param(params.drop_first(), name) {
            Some(i) => Some(i + 1),
            None => None,
        }
    }
}

/// The arguments `args` placed into the slots of the parameters `params`,
/// with the position of the next positional slot: a named argument fills
/// the slot of the first parameter of its name (or nothing, if there is
/// none); a positional argument fills the first empty slot from the cursor
/// on, and moves the cursor past it.
pub open spec fn place_args<T>(params: Seq<Seq<char>>, args: Seq<(Option<Seq<char>>, T)>) -> (Seq<Option<T>>, int)
    decreases args.len(),
{
    if args.len() == 0 {
        (Seq::new(params.len(), |i: int| None), 0)
    } else {
        let (ordered, cursor) = place_args(params, args.drop_last());
        let (name, value) = args.last();
        match name {
            Some(n) => match first_param(params, n) {
                Some(ix) => (ordered.update(ix, Some(value)), cursor),
                None => (ordered, cursor),
            },
            None => {
                let c = skip_filled(ordered, cursor);
                if c < ordered.len() {
                    (ordered.update(c, Some(value)), c + 1)
                } else {
                    (ordered, c)
                }
            },
        }
    }
}

/// The names and values of call arguments.
pub open spec fn args_view<T>(args: Seq<(Option<String>, T)>) -> Seq<(Option<Seq<char>>, T)> {
    args.map_values(|a: (Option<String>, T)| (match a.0 {
        Some(s) => Some(s@),
        None => None,
    }, a.1))
}

/// `d` is a MIR error with code `code` and message `message`, labelled on
/// `file` at `span` with `label`.
pub open spec fn is_report(d: Diagnostic, code: DiagnosticCode, message: Seq<char>, file: Seq<char>, span: SourceSpan, label: Seq<char>) -> bool {
    &&& d.severity == Severity::Error
    &&& d.phase == DiagnosticPhase::Mir
    &&& d.code == code
    &&& d.message@ == message
    &&& d.primary_label matches Some(l) && l.file@ == file && l.span == Some(span) && l.message@ == label
}

/// A name under which printing is called: `print` or `println`, alone or
/// after `::`.
pub open spec fn is_print_name(n: Seq<char>) -> bool {
    n == seq!['p', 'r', 'i', 'n', 't'] || n == seq!['p', 'r', 'i', 'n', 't', 'l', 'n']
        || is_suffix(seq![':', ':', 'p', 'r', 'i', 'n', 't'], n) || is_suffix(seq![':', ':', 'p', 'r', 'i', 'n', 't', 'l', 'n'], n)
}

/// What binding the values of `pattern` over `scrutinee` in `block` emits,
/// taking state `o` to function `f` with next value `next`: for an enum
/// pattern, the index literal and indexing for each named binding without
/// a recorded element, appended to `block`; for other patterns, nothing.
pub open spec fn pattern_values_emitted(o: FunctionLowerer, f: MirFunction, next: usize, block: MirBlockId,
    scrutinee: MirValueId, pattern: HirPattern) -> bool {
    match pattern {
        HirPattern::EnumVariant { bindings, .. } => {
            let bs = views(bindings@);
            let sq = o.aggregate_of(scrutinee);
            &&& next == o.next_value + 2 * fresh_slots(bs, sq)
            &&& extended(o.function.blocks@, f.blocks@, block.0 as int, 2 * fresh_slots(bs, sq))
            &&& slot_instrs(f.blocks@[block.0 as int].instructions@, bs, sq,
                o.function.blocks@[block.0 as int].instructions@.len() as int, o.next_value as int, scrutinee, bs.len() as int)
        },
        _ => f == o.function && next == o.next_value,
    }
}

/// No key occurs twice in an association list.
pub open spec fn keys_unique<V>(s: Seq<(String, V)>) -> bool {
    forall|i: int, j: int| 0 <= i < j < s.len() ==> (#[trigger] s[i]).0@ != (#[trigger] s[j]).0@
}

/// The value paired with `k` in an association list, by its first occurrence.
pub open spec fn assoc_find<V>(s: Seq<(String, V)>, k: Seq<char>) -> Option<V>
    decreases s.len(),
{
    if s.len() == 0 {
        None
    } else if s[0].0@ == k {
        Some(s[0].1)
    } else {
        assoc_find(s.drop_first(), k)
    }
}


/// `new` is `old` with instruction `ins` appended to block `b`.
pub open spec fn appended(old: Seq<MirBasicBlock>, new: Seq<MirBasicBlock>, b: int, ins: MirInstr) -> bool {
    &&& new.len() == old.len()
    &&& 0 <= b < old.len()
    &&& forall|i: int| 0 <= i < old.len() && i != b ==> #[trigger] new[i] == old[i]
    &&& new[b].id == old[b].id
    &&& new[b].terminator == old[b].terminator
    &&& new[b].instructions@ == old[b].instructions@.push(ins)
}

/// `new` is `old` with the terminator of block `b` set to `t`.
pub open spec fn terminated(old: Seq<MirBasicBlock>, new: Seq<MirBasicBlock>, b: int, t: MirTerminator) -> bool {
    &&& new.len() == old.len()
    &&& 0 <= b < old.len()
    &&& forall|i: int| 0 <= i < old.len() && i != b ==> #[trigger] new[i] == old[i]
    &&& new[b].id == old[b].id
    &&& new[b].terminator == Some(t)
    &&& new[b].instructions == old[b].instructions
}


proof fn lemma_assoc_find_at<V>(s: Seq<(String, V)>, k: Seq<char>, i: int)
    requires
        0 <= i < s.len(),
        s[i].0@ == k,
        forall|j: int| 0 <= j < i ==> (#[trigger] s[j]).0@ != k,
    ensures
        assoc_find(s, k) == Some(s[i].1),
    decreases i,
{
    if i > 0 {
        assert forall|j: int| 0 <= j < i - 1 implies (#[trigger] s.drop_first()[j]).0@ != k by {
            assert(s.drop_first()[j] == s[j + 1]);
        }
        lemma_assoc_find_at(s.drop_first(), k, i - 1);
    }
}

proof fn lemma_assoc_find_none<V>(s: Seq<(String, V)>, k: Seq<char>)
    requires
        forall|j: int| 0 <= j < s.len() ==> (#[trigger] s[j]).0@ != k,
    ensures
        assoc_find(s, k) is None,
    decreases s.len(),
{
    if s.len() > 0 {
        assert(s[0].0@ != k);
        assert forall|j: int| 0 <= j < s.len() - 1 implies (#[trigger] s.drop_first()[j]).0@ != k by {
            assert(s.drop_first()[j] == s[j + 1]);
        }
        lemma_assoc_find_none(s.drop_first(), k);
    }
}

/// In a list without repeated keys, a key is found at its only position.
proof fn lemma_assoc_find_unique<V>(s: Seq<(String, V)>, k: Seq<char>)
    requires
        keys_unique(s),
    ensures
        forall|j: int| 0 <= j < s.len() && (#[trigger] s[j]).0@ == k ==> assoc_find(s, k) == Some(s[j].1),
        (forall|j: int| 0 <= j < s.len() ==> (#[trigger] s[j]).0@ != k) ==> assoc_find(s, k) is None,
{
    assert forall|j: int| 0 <= j < s.len() && (#[trigger] s[j]).0@ == k implies assoc_find(s, k) == Some(s[j].1) by {
        assert forall|i: int| 0 <= i < j implies (#[trigger] s[i]).0@ != k by {
            assert(s[i].0@ != s[j].0@);
        }
        lemma_assoc_find_at(s, k, j);
    }
    if forall|j: int| 0 <= j < s.len() ==> (#[trigger] s[j]).0@ != k {
        lemma_assoc_find_none(s, k);
    }
}

/// The binding of `x` after restoring the saved bindings `s` in order over
/// bindings in which `x` was bound to `d`.
pub open spec fn restore_result(s: Seq<(String, Option<MirValueId>)>, x: Seq<char>, d: Option<MirValueId>) -> Option<MirValueId>
    decreases s.len(),
{
    if s.len() == 0 {
        d
    } else if s.last().0@ == x {
        s.last().1
    } else {
        restore_result(s.drop_last(), x, d)
    }
}


/// Appending an instruction that defines the next value keeps the lowering
/// state consistent and leaves every earlier value as it was.
proof fn lemma_append_new_def(o: FunctionLowerer, n: FunctionLowerer, bb: int, ins: MirInstr)
    requires
        o.wf(),
        instr_def(ins).0 == o.next_value,
        n.next_value == o.next_value + 1,
        appended(o.function.blocks@, n.function.blocks@, bb, ins),
        bb <= usize::MAX,
        o.function.blocks@[bb].instructions@.len() <= usize::MAX,
        n.function.entry == o.function.entry,
        n.value_types@ == o.value_types@.push(Some(instr_def(ins).1)),
        n.value_defs@ == o.value_defs@.push(
            if ins is Eval { Some((bb as usize, o.function.blocks@[bb].instructions@.len() as usize)) } else { None },
        ),
        n.locals == o.locals,
    ensures
        n.wf(),
        forall|v: MirValueId| v.0 < o.next_value ==> n.type_of(v) == o.type_of(v) && n.def_of(v) == o.def_of(v),
        n.type_of(MirValueId(o.next_value)) == Some(instr_def(ins).1),
        ins matches MirInstr::Eval { value, .. } ==> n.def_of(MirValueId(o.next_value)) == Some(value),
{
    let k = o.function.blocks@[bb].instructions@.len();
    let ty = instr_def(ins).1;
    let f = n.function;
    let of = o.function;
    let b0 = bb;
    assert forall|b: int, k2: int| valid_pos(of, b, k2) implies valid_pos(f, b, k2) && def_at(f, b, k2) == def_at(of, b, k2)
        && f.blocks@[b].instructions@[k2] == of.blocks@[b].instructions@[k2] by {
        if b != b0 {
            assert(f.blocks@[b] == of.blocks@[b]);
        }
    }
    assert(def_at(f, b0, k as int) == (o.next_value, ty));
    assert forall|b: int, k2: int| valid_pos(f, b, k2) implies (valid_pos(of, b, k2) || (b == b0 && k2 == k)) by {
        if b != b0 {
            assert(f.blocks@[b] == of.blocks@[b]);
        }
    }
    assert forall|b: int| 0 <= b < f.blocks@.len() implies (#[trigger] f.blocks@[b]).id.0 == b
        && jumps_within(f.blocks@[b].terminator, f.blocks@.len()) by {
        if b != b0 {
            assert(f.blocks@[b] == of.blocks@[b]);
        }
        assert(jumps_within(of.blocks@[b].terminator, of.blocks@.len()));
    }
    assert forall|b: int, k2: int| valid_pos(f, b, k2) implies (#[trigger] def_at(f, b, k2)).0 < n.next_value by {
        if !(b == b0 && k2 == k) {
            assert(def_at(of, b, k2).0 < o.next_value);
        }
    }
    assert forall|b1: int, k1: int, b2: int, k2: int|
        valid_pos(f, b1, k1) && valid_pos(f, b2, k2) && (b1 != b2 || k1 != k2)
        implies #[trigger] def_at(f, b1, k1).0 != #[trigger] def_at(f, b2, k2).0 by {
        if !(b1 == b0 && k1 == k) {
            assert(def_at(of, b1, k1).0 < o.next_value);
        }
        if !(b2 == b0 && k2 == k) {
            assert(def_at(of, b2, k2).0 < o.next_value);
        }
    }
    assert forall|b: int, k2: int| valid_pos(f, b, k2) implies {
        let d = #[trigger] def_at(f, b, k2);
        &&& d.0 < n.value_types@.len()
        &&& n.value_types@[d.0 as int] == Some(d.1)
        &&& (f.blocks@[b].instructions@[k2] is Eval ==> d.0 < n.value_defs@.len()
            && n.value_defs@[d.0 as int] == Some((b as usize, k2 as usize)))
    } by {
        if !(b == b0 && k2 == k) {
            assert(def_at(of, b, k2).0 < o.next_value);
        }
    }
    assert forall|d: int| 0 <= d < n.value_defs@.len() implies match #[trigger] n.value_defs@[d] {
        Some((b, k2)) => valid_pos(f, b as int, k2 as int) && def_at(f, b as int, k2 as int).0 == d
            && f.blocks@[b as int].instructions@[k2 as int] is Eval,
        None => true,
    } by {
        if d != o.next_value as int {
            assert(n.value_defs@[d] == o.value_defs@[d]);
        } else if ins is Eval {
            assert(f.blocks@[bb].instructions@[k as int] == ins);
            assert((bb as usize) as int == bb);
            assert((k as usize) as int == k);
            assert(valid_pos(f, bb, k as int));
        }
    }
    assert forall|v: MirValueId| v.0 < o.next_value implies n.type_of(v) == o.type_of(v)
        && n.def_of(v) == o.def_of(v) by {
        assert(n.value_defs@[v.0 as int] == o.value_defs@[v.0 as int]);
        assert(n.value_types@[v.0 as int] == o.value_types@[v.0 as int]);
        match o.value_defs@[v.0 as int] {
            Some((b, k2)) => {
                assert(valid_pos(of, b as int, k2 as int));
            },
            None => {},
        }
    }
    assert(o.next_value < n.value_defs@.len());
    if ins is Eval {
        assert(n.value_defs@[o.next_value as int] == Some((bb as usize, k as usize)));
        assert(f.blocks@[bb].instructions@[k as int] == ins);
    }
}

/// Adding a source to a phi keeps the lowering state consistent and every
/// recorded type and definition as it was.
proof fn lemma_phi_source_added(o: FunctionLowerer, n: FunctionLowerer, h: int, j: int, src: (MirBlockId, MirValueId))
    requires
        o.wf(),
        phi_source_added(o.function.blocks@, n.function.blocks@, h, j, src),
        n.function.entry == o.function.entry,
        n.next_value == o.next_value,
        n.value_types == o.value_types,
        n.value_defs == o.value_defs,
        n.locals == o.locals,
    ensures
        n.wf(),
        forall|v: MirValueId| n.type_of(v) == o.type_of(v) && n.def_of(v) == o.def_of(v),
{
    let f = n.function;
    let of = o.function;
    assert forall|b: int, k: int| valid_pos(f, b, k) <==> valid_pos(of, b, k) by {
        if 0 <= b < f.blocks@.len() && b != h {
            assert(f.blocks@[b] == of.blocks@[b]);
        }
    }
    assert forall|b: int, k: int| valid_pos(of, b, k) implies def_at(f, b, k) == def_at(of, b, k)
        && (f.blocks@[b].instructions@[k] is Eval <==> of.blocks@[b].instructions@[k] is Eval)
        && (of.blocks@[b].instructions@[k] is Eval ==> f.blocks@[b].instructions@[k] == of.blocks@[b].instructions@[k]) by {
        if b != h {
            assert(f.blocks@[b] == of.blocks@[b]);
        } else if k != j {
            assert(f.blocks@[b].instructions@[k] == of.blocks@[b].instructions@[k]);
        }
    }
    assert forall|b: int| 0 <= b < f.blocks@.len() implies (#[trigger] f.blocks@[b]).id.0 == b
        && jumps_within(f.blocks@[b].terminator, f.blocks@.len()) by {
        if b != h {
            assert(f.blocks@[b] == of.blocks@[b]);
        }
        assert(jumps_within(of.blocks@[b].terminator, of.blocks@.len()));
    }
    assert forall|b1: int, k1: int, b2: int, k2: int|
        valid_pos(f, b1, k1) && valid_pos(f, b2, k2) && (b1 != b2 || k1 != k2)
        implies #[trigger] def_at(f, b1, k1).0 != #[trigger] def_at(f, b2, k2).0 by {
        assert(valid_pos(of, b1, k1) && valid_pos(of, b2, k2));
        assert(def_at(of, b1, k1).0 != def_at(of, b2, k2).0);
    }
    assert forall|b: int, k: int| valid_pos(f, b, k) implies (#[trigger] def_at(f, b, k)).0 < n.next_value by {
        assert(valid_pos(of, b, k));
    }
    assert forall|b: int, k: int| valid_pos(f, b, k) implies {
        let d = #[trigger] def_at(f, b, k);
        &&& d.0 < n.value_types@.len()
        &&& n.value_types@[d.0 as int] == Some(d.1)
        &&& (f.blocks@[b].instructions@[k] is Eval ==> d.0 < n.value_defs@.len()
            && n.value_defs@[d.0 as int] == Some((b as usize, k as usize)))
    } by {
        assert(valid_pos(of, b, k));
        assert(def_at(f, b, k) == def_at(of, b, k));
    }
    assert forall|d: int| 0 <= d < n.value_defs@.len() implies match #[trigger] n.value_defs@[d] {
        Some((b, k)) => valid_pos(f, b as int, k as int) && def_at(f, b as int, k as int).0 == d
            && f.blocks@[b as int].instructions@[k as int] is Eval,
        None => true,
    } by {
        match n.value_defs@[d] {
            Some((b, k)) => {
                assert(valid_pos(of, b as int, k as int));
            },
            None => {},
        }
    }
    assert forall|v: MirValueId| n.type_of(v) == o.type_of(v) && n.def_of(v) == o.def_of(v) by {
        if v.0 < n.value_defs@.len() {
            match n.value_defs@[v.0 as int] {
                Some((b, k)) => {
                    assert(valid_pos(of, b as int, k as int));
                    assert(of.blocks@[b as int].instructions@[k as int] is Eval);
                },
                None => {},
            }
        }
    }
}

/// A list whose names are strictly increasing repeats no name.
proof fn lemma_sorted_names_unique<V>(s: Seq<(String, V)>)
    requires
        strictly_sorted(names_of(s)),
    ensures
        keys_unique(s),
{
    assert forall|a: int, b: int| 0 <= a < b < s.len() implies (#[trigger] s[a]).0@ != (#[trigger] s[b]).0@ by {
        assert(names_of(s)[a] == s[a].0@ && names_of(s)[b] == s[b].0@);
        assert(seq_lt(names_of(s)[a], names_of(s)[b]));
        crate::name_set::lemma_lt_irreflexive(s[a].0@);
    }
}

proof fn lemma_appended_twice(a: Seq<MirBasicBlock>, b: Seq<MirBasicBlock>, c: Seq<MirBasicBlock>, blk: int, i1: MirInstr, i2: MirInstr)
    requires
        appended(a, b, blk, i1),
        appended(b, c, blk, i2),
    ensures
        extended(a, c, blk, 2),
        c[blk].instructions@[a[blk].instructions@.len() as int] == i1,
        c[blk].instructions@[a[blk].instructions@.len() as int + 1] == i2,
{
    assert forall|i: int| 0 <= i < a.len() && i != blk implies #[trigger] c[i] == a[i] by {
        assert(b[i] == a[i]);
    }
    assert(c[blk].instructions@.take(a[blk].instructions@.len() as int) =~= a[blk].instructions@);
}

proof fn lemma_id_find_at<V>(s: Seq<(MirValueId, V)>, id: MirValueId, i: int)
    requires
        0 <= i < s.len(),
        s[i].0 == id,
        forall|j: int| 0 <= j < i ==> (#[trigger] s[j]).0 != id,
    ensures
        id_find(s, id) == Some(s[i].1),
    decreases i,
{
    if i > 0 {
        assert forall|j: int| 0 <= j < i - 1 implies (#[trigger] s.drop_first()[j]).0 != id by {
            assert(s.drop_first()[j] == s[j + 1]);
        }
        lemma_id_find_at(s.drop_first(), id, i - 1);
    }
}

proof fn lemma_id_find_none<V>(s: Seq<(MirValueId, V)>, id: MirValueId)
    requires
        forall|j: int| 0 <= j < s.len() ==> (#[trigger] s[j]).0 != id,
    ensures
        id_find(s, id) is None,
    decreases s.len(),
{
    if s.len() > 0 {
        assert(s[0].0 != id);
        assert forall|j: int| 0 <= j < s.len() - 1 implies (#[trigger] s.drop_first()[j]).0 != id by {
            assert(s.drop_first()[j] == s[j + 1]);
        }
        lemma_id_find_none(s.drop_first(), id);
    }
}

proof fn lemma_id_find_update<V>(s: Seq<(MirValueId, V)>, i: int, v: V)
    requires
        0 <= i < s.len(),
        forall|j: int| 0 <= j < i ==> (#[trigger] s[j]).0 != s[i].0,
    ensures
        forall|x: MirValueId| #[trigger] id_find(s.update(i, (s[i].0, v)), x) == if x == s[i].0 { Some(v) } else { id_find(s, x) },
    decreases i,
{
    let k = s[i].0;
    let t = s.update(i, (k, v));
    if i == 0 {
        assert(t.drop_first() =~= s.drop_first());
        assert forall|x: MirValueId| #[trigger] id_find(t, x) == if x == k { Some(v) } else { id_find(s, x) } by {
            assert(t[0] == (k, v));
        }
    } else {
        let s1 = s.drop_first();
        assert forall|j: int| 0 <= j < i - 1 implies (#[trigger] s1[j]).0 != s1[i - 1].0 by {
            assert(s1[j] == s[j + 1]);
        }
        lemma_id_find_update(s1, i - 1, v);
        assert(s1[i - 1] == s[i]);
        assert(t.drop_first() =~= s1.update(i - 1, (k, v)));
        assert(s[0].0 != k);
        assert forall|x: MirValueId| #[trigger] id_find(t, x) == if x == k { Some(v) } else { id_find(s, x) } by {
            assert(t[0] == s[0]);
            assert(id_find(s1.update(i - 1, (k, v)), x) == if x == k { Some(v) } else { id_find(s1, x) });
        }
    }
}

proof fn lemma_id_find_push<V>(s: Seq<(MirValueId, V)>, k: MirValueId, v: V)
    requires
        forall|j: int| 0 <= j < s.len() ==> (#[trigger] s[j]).0 != k,
    ensures
        forall|x: MirValueId| #[trigger] id_find(s.push((k, v)), x) == if x == k { Some(v) } else { id_find(s, x) },
    decreases s.len(),
{
    let t = s.push((k, v));
    if s.len() == 0 {
        assert(t.drop_first() =~= s);
        assert forall|x: MirValueId| #[trigger] id_find(t, x) == if x == k { Some(v) } else { id_find(s, x) } by {
            assert(t[0] == (k, v));
        }
    } else {
        let s1 = s.drop_first();
        assert forall|j: int| 0 <= j < s1.len() implies (#[trigger] s1[j]).0 != k by {
            assert(s1[j] == s[j + 1]);
        }
        lemma_id_find_push(s1, k, v);
        assert(t.drop_first() =~= s1.push((k, v)));
        assert(s[0].0 != k);
        assert forall|x: MirValueId| #[trigger] id_find(t, x) == if x == k { Some(v) } else { id_find(s, x) } by {
            assert(t[0] == s[0]);
            assert(id_find(s1.push((k, v)), x) == if x == k { Some(v) } else { id_find(s1, x) });
        }
    }
}

proof fn lemma_id_find_remove<V>(s: Seq<(MirValueId, V)>, i: int)
    requires
        0 <= i < s.len(),
    ensures
        forall|x: MirValueId| x != s[i].0 ==> #[trigger] id_find(s.remove(i), x) == id_find(s, x),
    decreases i,
{
    let t = s.remove(i);
    if i == 0 {
        assert(t =~= s.drop_first());
    } else {
        let s1 = s.drop_first();
        lemma_id_find_remove(s1, i - 1);
        assert(s1[i - 1] == s[i]);
        assert(t.drop_first() =~= s1.remove(i - 1));
        assert(t[0] == s[0]);
        assert forall|x: MirValueId| x != s[i].0 implies #[trigger] id_find(t, x) == id_find(s, x) by {
            assert(id_find(s1.remove(i - 1), x) == id_find(s1, x));
        }
    }
}

proof fn lemma_key_find_at<V>(s: Seq<(ModuleKey, V)>, k: (Seq<Seq<char>>, Seq<char>), i: int)
    requires
        0 <= i < s.len(),
        key_view(s[i].0) == k,
        forall|j: int| 0 <= j < i ==> key_view((#[trigger] s[j]).0) != k,
    ensures
        key_find(s, k) == Some(s[i].1),
    decreases i,
{
    if i > 0 {
        assert forall|j: int| 0 <= j < i - 1 implies key_view((#[trigger] s.drop_first()[j]).0) != k by {
            assert(s.drop_first()[j] == s[j + 1]);
        }
        lemma_key_find_at(s.drop_first(), k, i - 1);
    }
}

proof fn lemma_key_find_none<V>(s: Seq<(ModuleKey, V)>, k: (Seq<Seq<char>>, Seq<char>))
    requires
        forall|j: int| 0 <= j < s.len() ==> key_view((#[trigger] s[j]).0) != k,
    ensures
        key_find(s, k) is None,
    decreases s.len(),
{
    if s.len() > 0 {
        assert(key_view(s[0].0) != k);
        assert forall|j: int| 0 <= j < s.len() - 1 implies key_view((#[trigger] s.drop_first()[j]).0) != k by {
            assert(s.drop_first()[j] == s[j + 1]);
        }
        lemma_key_find_none(s.drop_first(), k);
    }
}

/// The first entry of an association list keyed by name whose key is `k`.
pub(crate) fn find_name<V>(s: &Vec<(String, V)>, k: &str) -> (r: Option<usize>)
    ensures
        match r {
            Some(i) => i < s@.len() && assoc_find(s@, k@) == Some(s@[i as int].1),
            None => assoc_find(s@, k@) is None,
        },
{
    let mut i: usize = 0;
    while i < s.len()
        invariant
            i <= s@.len(),
            forall|j: int| 0 <= j < i ==> (#[trigger] s@[j]).0@ != k@,
        decreases s.len() - i,
    {
        if string_eq_str(&s[i].0, k) {
            proof { lemma_assoc_find_at(s@, k@, i as int); }
            return Some(i);
        }
        i = i + 1;
    }
    proof { lemma_assoc_find_none(s@, k@); }
    None
}

proof fn lemma_id_lookup_at<V>(s: Seq<(ModuleId, V)>, id: ModuleId, i: int)
    requires
        0 <= i < s.len(),
        s[i].0 == id,
        forall|j: int| 0 <= j < i ==> (#[trigger] s[j]).0 != id,
    ensures
        id_lookup(s, id) == Some(s[i].1),
    decreases i,
{
    if i > 0 {
        assert forall|j: int| 0 <= j < i - 1 implies (#[trigger] s.drop_first()[j]).0 != id by {
            assert(s.drop_first()[j] == s[j + 1]);
        }
        lemma_id_lookup_at(s.drop_first(), id, i - 1);
    }
}

proof fn lemma_id_lookup_none<V>(s: Seq<(ModuleId, V)>, id: ModuleId)
    requires
        forall|j: int| 0 <= j < s.len() ==> (#[trigger] s[j]).0 != id,
    ensures
        id_lookup(s, id) is None,
    decreases s.len(),
{
    if s.len() > 0 {
        assert(s[0].0 != id);
        assert forall|j: int| 0 <= j < s.len() - 1 implies (#[trigger] s.drop_first()[j]).0 != id by {
            assert(s.drop_first()[j] == s[j + 1]);
        }
        lemma_id_lookup_none(s.drop_first(), id);
    }
}

proof fn lemma_fresh_slots_bound(bindings: Seq<Seq<char>>, seq: Option<Seq<MirValueId>>)
    ensures
        fresh_slots(bindings, seq) <= bindings.len(),
    decreases bindings.len(),
{
    if bindings.len() > 0 {
        lemma_fresh_slots_bound(bindings.drop_last(), seq);
    }
}

proof fn lemma_appended_extends(a: Seq<MirBasicBlock>, b: Seq<MirBasicBlock>, blk: int, ins: MirInstr)
    requires
        appended(a, b, blk, ins),
    ensures
        extended(a, b, blk, 1),
        b[blk].instructions@[a[blk].instructions@.len() as int] == ins,
{
    assert(b[blk].instructions@.take(a[blk].instructions@.len() as int) =~= a[blk].instructions@);
}

proof fn lemma_extended_trans(a: Seq<MirBasicBlock>, b: Seq<MirBasicBlock>, c: Seq<MirBasicBlock>, blk: int, x: nat, y: nat)
    requires
        extended(a, b, blk, x),
        extended(b, c, blk, y),
    ensures
        extended(a, c, blk, x + y),
        forall|k: int| 0 <= k < b[blk].instructions@.len() ==> #[trigger] c[blk].instructions@[k] == b[blk].instructions@[k],
{
    assert forall|i: int| 0 <= i < a.len() && i != blk implies #[trigger] c[i] == a[i] by {
        assert(b[i] == a[i]);
    }
    assert forall|k: int| 0 <= k < b[blk].instructions@.len() implies #[trigger] c[blk].instructions@[k] == b[blk].instructions@[k] by {
        assert(c[blk].instructions@.take(b[blk].instructions@.len() as int)[k] == c[blk].instructions@[k]);
    }
    assert(c[blk].instructions@.take(a[blk].instructions@.len() as int) =~= a[blk].instructions@) by {
        assert forall|k: int| 0 <= k < a[blk].instructions@.len() implies c[blk].instructions@[k] == a[blk].instructions@[k] by {
            assert(b[blk].instructions@.take(a[blk].instructions@.len() as int)[k] == b[blk].instructions@[k]);
            assert(c[blk].instructions@.take(b[blk].instructions@.len() as int)[k] == c[blk].instructions@[k]);
        }
    }
}

proof fn lemma_fresh_slots_take_step(bs: Seq<Seq<char>>, seq: Option<Seq<MirValueId>>, k: int)
    requires
        0 <= k < bs.len(),
    ensures
        fresh_slots(bs.take(k + 1), seq) == fresh_slots(bs.take(k), seq) + if !is_wild(bs[k]) && seq_value_at(seq, k + 1) is None {
            1nat
        } else {
            0nat
        },
{
    assert(bs.take(k + 1).drop_last() =~= bs.take(k));
    assert(bs.take(k + 1).last() == bs[k]);
}

proof fn lemma_fresh_slots_take_mono(bs: Seq<Seq<char>>, seq: Option<Seq<MirValueId>>, a: int, b: int)
    requires
        0 <= a <= b <= bs.len(),
    ensures
        fresh_slots(bs.take(a), seq) <= fresh_slots(bs.take(b), seq),
    decreases b - a,
{
    if a < b {
        lemma_fresh_slots_take_mono(bs, seq, a, b - 1);
        lemma_fresh_slots_take_step(bs, seq, b - 1);
    }
}

#[verifier::spinoff_prover]
#[verifier::rlimit(40)]
proof fn lemma_slot_instrs_step(pins: Seq<MirInstr>, ins: Seq<MirInstr>, bs: Seq<Seq<char>>, sq: Option<Seq<MirValueId>>,
    n0: int, nv: int, scrutinee: MirValueId, idx: int)
    requires
        0 <= idx < bs.len(),
        0 <= n0,
        slot_instrs(pins, bs, sq, n0, nv, scrutinee, idx),
        pins.len() == n0 + 2 * fresh_slots(bs.take(idx), sq),
        ins.len() >= pins.len(),
        forall|k: int| 0 <= k < pins.len() ==> #[trigger] ins[k] == pins[k],
        !is_wild(bs[idx]) && seq_value_at(sq, idx + 1) is None ==> {
            let m = fresh_slots(bs.take(idx), sq) as int;
            &&& literal_eval(ins[n0 + 2 * m], MirValueId((nv + 2 * m) as usize),
                HirLiteralView::Integer(spec_decimal((idx + 1) as nat)), MirValueType::Int { signed: false, bits: 32 })
            &&& ins[n0 + 2 * m + 1] == MirInstr::Eval { dest: MirValueId((nv + 2 * m + 1) as usize),
                value: MirValue::Index { base: scrutinee, index: MirValueId((nv + 2 * m) as usize) },
                ty: MirValueType::Unknown }
        },
    ensures
        slot_instrs(ins, bs, sq, n0, nv, scrutinee, idx + 1),
{
    reveal(slot_instrs);
    assert forall|k: int| 0 <= k < idx + 1 && !is_wild(#[trigger] bs[k]) && seq_value_at(sq, k + 1) is None implies {
        let m = fresh_slots(bs.take(k), sq) as int;
        &&& literal_eval(ins[n0 + 2 * m], MirValueId((nv + 2 * m) as usize),
            HirLiteralView::Integer(spec_decimal((k + 1) as nat)), MirValueType::Int { signed: false, bits: 32 })
        &&& ins[n0 + 2 * m + 1] == MirInstr::Eval { dest: MirValueId((nv + 2 * m + 1) as usize),
            value: MirValue::Index { base: scrutinee, index: MirValueId((nv + 2 * m) as usize) },
            ty: MirValueType::Unknown }
    } by {
        if k < idx {
            let m = fresh_slots(bs.take(k), sq) as int;
            lemma_fresh_slots_take_step(bs, sq, k);
            lemma_fresh_slots_take_mono(bs, sq, k + 1, idx);
            assert(ins[n0 + 2 * m] == pins[n0 + 2 * m]);
            assert(ins[n0 + 2 * m + 1] == pins[n0 + 2 * m + 1]);
        }
    }
}

proof fn lemma_slot_instrs_none(ins: Seq<MirInstr>, bs: Seq<Seq<char>>, sq: Option<Seq<MirValueId>>, n0: int, nv: int, scrutinee: MirValueId)
    ensures
        slot_instrs(ins, bs, sq, n0, nv, scrutinee, 0),
{
    reveal(slot_instrs);
}

proof fn lemma_enum_bindings_allocated(bs: Seq<Seq<char>>, sq: Option<Seq<MirValueId>>, next: nat, i: int)
    requires
        0 <= i < enum_bindings(bs, sq, next).len(),
        sq matches Some(s) ==> forall|j: int| 0 <= j < s.len() ==> (#[trigger] s[j]).0 < next,
        next + 2 * bs.len() + 2 < usize::MAX,
    ensures
        enum_bindings(bs, sq, next)[i].1.0 < next + 2 * fresh_slots(bs, sq),
    decreases bs.len(),
{
    lemma_fresh_slots_bound(bs.drop_last(), sq);
    let prev = enum_bindings(bs.drop_last(), sq, next);
    if i < prev.len() {
        lemma_enum_bindings_allocated(bs.drop_last(), sq, next, i);
    }
}

proof fn lemma_place_args_len<T>(params: Seq<Seq<char>>, args: Seq<(Option<Seq<char>>, T)>)
    ensures
        place_args(params, args).0.len() == params.len(),
        0 <= place_args(params, args).1 <= params.len(),
    decreases args.len(),
{
    if args.len() > 0 {
        lemma_place_args_len(params, args.drop_last());
        let (ordered, cursor) = place_args(params, args.drop_last());
        lemma_skip_filled_bounds(ordered, cursor);
        match args.last().0 {
            Some(n) => {
                lemma_first_param_bounds(params, n);
            },
            None => {},
        }
    }
}

proof fn lemma_skip_filled_bounds<T>(ordered: Seq<Option<T>>, c: int)
    requires
        0 <= c <= ordered.len(),
    ensures
        c <= skip_filled(ordered, c) <= ordered.len(),
        skip_filled(ordered, c) < ordered.len() ==> ordered[skip_filled(ordered, c)] is None,
    decreases ordered.len() - c,
{
    if 0 <= c < ordered.len() && ordered[c] is Some {
        lemma_skip_filled_bounds(ordered, c + 1);
    }
}

proof fn lemma_first_param_bounds(params: Seq<Seq<char>>, name: Seq<char>)
    ensures
        first_param(params, name) matches Some(i) ==> 0 <= i < params.len() && params[i] == name,
    decreases params.len(),
{
    if params.len() > 0 && params[0] != name {
        lemma_first_param_bounds(params.drop_first(), name);
    }
}

proof fn lemma_first_param_at(params: Seq<Seq<char>>, name: Seq<char>, i: int)
    requires
        0 <= i < params.len(),
        params[i] == name,
        forall|j: int| 0 <= j < i ==> params[j] != name,
    ensures
        first_param(params, name) == Some(i),
    decreases i,
{
    if i > 0 {
        assert forall|j: int| 0 <= j < i - 1 implies params.drop_first()[j] != name by {
            assert(params.drop_first()[j] == params[j + 1]);
        }
        lemma_first_param_at(params.drop_first(), name, i - 1);
    }
}

proof fn lemma_first_param_none(params: Seq<Seq<char>>, name: Seq<char>)
    requires
        forall|j: int| 0 <= j < params.len() ==> params[j] != name,
    ensures
        first_param(params, name) is None,
    decreases params.len(),
{
    if params.len() > 0 {
        assert forall|j: int| 0 <= j < params.len() - 1 implies params.drop_first()[j] != name by {
            assert(params.drop_first()[j] == params[j + 1]);
        }
        lemma_first_param_none(params.drop_first(), name);
    }
}

/// Whether `n` is a name under which printing is called.
fn is_print_name_str(n: &str) -> (r: bool)
    ensures
        r == is_print_name(n@),
{
    proof {
        reveal_strlit("print");
        reveal_strlit("println");
        reveal_strlit("::print");
        reveal_strlit("::println");
        assert("print"@ =~= seq!['p', 'r', 'i', 'n', 't']);
        assert("println"@ =~= seq!['p', 'r', 'i', 'n', 't', 'l', 'n']);
        assert("::print"@ =~= seq![':', ':', 'p', 'r', 'i', 'n', 't']);
        assert("::println"@ =~= seq![':', ':', 'p', 'r', 'i', 'n', 't', 'l', 'n']);
    }
    let v = chars_of(n);
    eq_str(&v, "print") || eq_str(&v, "println") || ends_with_str(&v, "::print") || ends_with_str(&v, "::println")
}

impl FunctionLowerer {
    /// The lowering state is consistent: the graph is well numbered, each
    /// value is defined at most once and below `next_value`, every defined
    /// value is recorded, and each local name is bound once.
    pub open spec fn wf(&self) -> bool {
        &&& blocks_wf(self.function)
        &&& self.value_types@.len() == self.next_value
        &&& self.value_defs@.len() == self.next_value
        &&& defs_below(self.function, self.next_value as nat)
        &&& defs_distinct(self.function)
        &&& defs_recorded(self.function, self.value_types@, self.value_defs@)
        &&& positions_sound(self.function, self.value_defs@)
        &&& keys_unique(self.locals@)
        &&& forall|i: int| 0 <= i < self.locals@.len() ==> (#[trigger] self.locals@[i]).1.0 < self.next_value
    }

    /// `self` and `other` agree on the module, the source file, the tables
    /// of the module and the facts recorded about values beyond their types
    /// and definitions.
    pub open spec fn same_context(&self, other: &FunctionLowerer) -> bool {
        &&& self.same_tables(other)
        &&& self.diagnostics == other.diagnostics
    }

    /// `self` and `other` agree on the module, the source file, the tables
    /// of the module and the facts recorded about values beyond their types
    /// and definitions, diagnostics aside.
    pub open spec fn same_tables(&self, other: &FunctionLowerer) -> bool {
        &&& self.struct_fields == other.struct_fields
        &&& self.aggregate_sequences == other.aggregate_sequences
        &&& self.same_module_tables(other)
    }

    /// `self` and `other` agree on the module, the source file, the tables
    /// of the module, the errorable values and the parameter hints.
    pub open spec fn same_module_tables(&self, other: &FunctionLowerer) -> bool {
        &&& self.module_key == other.module_key
        &&& self.source_file_path == other.source_file_path
        &&& self.errorable_aggregate_values == other.errorable_aggregate_values
        &&& self.errorable_scalar_values == other.errorable_scalar_values
        &&& self.function_return_types == other.function_return_types
        &&& self.function_return_hints == other.function_return_hints
        &&& self.function_param_type_hints == other.function_param_type_hints
        &&& self.enum_repr_bits_by_name == other.enum_repr_bits_by_name
        &&& self.enum_variant_tags_by_name == other.enum_variant_tags_by_name
        &&& self.function_exprs == other.function_exprs
        &&& self.module_ids_by_key == other.module_ids_by_key
        &&& self.module_exports_by_id == other.module_exports_by_id
        &&& self.current_param_type_hints == other.current_param_type_hints
    }

    /// The number of blocks built so far.
    pub open spec fn num_blocks(&self) -> nat {
        self.function.blocks@.len()
    }

    /// The recorded type of value `id`.
    pub open spec fn type_of(&self, id: MirValueId) -> Option<MirValueType> {
        if id.0 < self.value_types@.len() { self.value_types@[id.0 as int] } else { None }
    }

    /// The recorded definition of value `id`: the value computed by the
    /// ordinary instruction that defines it.
    pub open spec fn def_of(&self, id: MirValueId) -> Option<MirValue> {
        def_in(self.function, self.value_defs@, id)
    }

    /// The value that local `name` is bound to.
    pub open spec fn local(&self, name: Seq<char>) -> Option<MirValueId> {
        assoc_find(self.locals@, name)
    }

    /// A fresh lowering state for function `name`: one empty entry block, no
    /// values, no locals and no loops.
    pub fn new(module_key: ModuleKey, source_file_path: String, name: String, shared: FunctionLowererShared) -> (r: FunctionLowerer)
        ensures
            r.wf(),
            r.function.name == name,
            r.function.def_id is None,
            r.function.return_type is None,
            r.function.param_type_hints@.len() == 0,
            r.function.param_types@.len() == 0,
            r.function.blocks@.len() == 1,
            r.function.blocks@[0].instructions@.len() == 0,
            r.function.blocks@[0].terminator is None,
            r.function.entry == MirBlockId(0),
            r.next_value == 0,
            r.locals@.len() == 0,
            r.loop_stack@.len() == 0,
            r.module_key == module_key,
            r.source_file_path == source_file_path,
            r.function_return_types == shared.function_return_types,
            r.function_return_hints == shared.function_return_hints,
            r.function_param_type_hints == shared.function_param_type_hints,
            r.enum_repr_bits_by_name == shared.enum_repr_bits_by_name,
            r.enum_variant_tags_by_name == shared.enum_variant_tags_by_name,
            r.function_exprs == shared.function_exprs,
            r.named_type_literals == shared.named_type_literals,
            r.build_target == shared.build_target,
            r.comptime_local_function_exprs@.len() == 0,
            r.current_self_type_hint is None,
            r.module_ids_by_key == shared.module_ids_by_key,
            r.module_exports_by_id == shared.module_exports_by_id,
            r.struct_fields@.len() == 0,
            r.aggregate_sequences@.len() == 0,
            r.errorable_aggregate_values@.len() == 0,
            r.errorable_scalar_values@.len() == 0,
            r.current_param_type_hints@.len() == 0,
            r.diagnostics@.len() == 0,
    {
        let mut blocks: Vec<MirBasicBlock> = Vec::new();
        blocks.push(MirBasicBlock { id: MirBlockId(0), instructions: Vec::new(), terminator: None });
        FunctionLowerer {
            module_key,
            named_type_literals: shared.named_type_literals,
            build_target: shared.build_target,
            comptime_local_function_exprs: Vec::new(),
            current_self_type_hint: None,
            source_file_path,
            function: MirFunction {
                name,
                def_id: None,
                return_type: None,
                param_type_hints: Vec::new(),
                param_types: Vec::new(),
                blocks,
                entry: MirBlockId(0),
            },
            next_value: 0,
            locals: Vec::new(),
            value_types: Vec::new(),
            value_defs: Vec::new(),
            struct_fields: Vec::new(),
            aggregate_sequences: Vec::new(),
            errorable_aggregate_values: Vec::new(),
            errorable_scalar_values: Vec::new(),
            function_return_types: shared.function_return_types,
            function_return_hints: shared.function_return_hints,
            function_param_type_hints: shared.function_param_type_hints,
            enum_repr_bits_by_name: shared.enum_repr_bits_by_name,
            enum_variant_tags_by_name: shared.enum_variant_tags_by_name,
            function_exprs: shared.function_exprs,
            module_ids_by_key: shared.module_ids_by_key,
            module_exports_by_id: shared.module_exports_by_id,
            current_param_type_hints: Vec::new(),
            loop_stack: Vec::new(),
            diagnostics: Vec::new(),
        }
    }

    /// Appends an empty, unterminated block and returns its id, the number of
    /// blocks before the call.
    pub fn new_block(&mut self) -> (r: MirBlockId)
        requires
            old(self).wf(),
            old(self).function.blocks@.len() < usize::MAX,
        ensures
            final(self).wf(),
            r.0 == old(self).function.blocks@.len(),
            final(self).function.blocks@ == old(self).function.blocks@.push(
                MirBasicBlock { id: r, instructions: final(self).function.blocks@[r.0 as int].instructions, terminator: None },
            ),
            final(self).function.blocks@[r.0 as int].instructions@.len() == 0,
            final(self).function.entry == old(self).function.entry,
            final(self).next_value == old(self).next_value,
            final(self).value_types == old(self).value_types,
            final(self).value_defs == old(self).value_defs,
            final(self).locals == old(self).locals,
            final(self).loop_stack == old(self).loop_stack,
            final(self).same_context(old(self)),
    {
        let id = MirBlockId(self.function.blocks.len());
        self.function.blocks.push(MirBasicBlock { id, instructions: Vec::new(), terminator: None });
        proof {
            let f = self.function;
            let of = old(self).function;
            assert forall|b: int, k: int| valid_pos(f, b, k) implies valid_pos(of, b, k) && def_at(f, b, k) == def_at(of, b, k) by {
                assert(b < of.blocks@.len());
                assert(f.blocks@[b] == of.blocks@[b]);
            }
            assert forall|b: int| 0 <= b < f.blocks@.len() implies jumps_within((#[trigger] f.blocks@[b]).terminator, f.blocks@.len()) by {
                if b < of.blocks@.len() {
                    assert(f.blocks@[b] == of.blocks@[b]);
                    assert(jumps_within(of.blocks@[b].terminator, of.blocks@.len()));
                }
            }
            assert forall|b1: int, k1: int, b2: int, k2: int|
                valid_pos(f, b1, k1) && valid_pos(f, b2, k2) && (b1 != b2 || k1 != k2)
                implies #[trigger] def_at(f, b1, k1).0 != #[trigger] def_at(f, b2, k2).0 by {
                assert(valid_pos(of, b1, k1) && valid_pos(of, b2, k2));
            }
        }
        id
    }

    /// Hands out the next value id, with nothing yet recorded for it.
    pub fn fresh_value(&mut self) -> (r: MirValueId)
        requires
            old(self).wf(),
            old(self).next_value < usize::MAX,
        ensures
            final(self).wf(),
            r.0 == old(self).next_value,
            final(self).next_value == old(self).next_value + 1,
            final(self).function == old(self).function,
            final(self).value_types@ == old(self).value_types@.push(None),
            final(self).value_defs@ == old(self).value_defs@.push(None),
            final(self).locals == old(self).locals,
            final(self).loop_stack == old(self).loop_stack,
            final(self).same_context(old(self)),
    {
        let id = MirValueId(self.next_value);
        self.next_value = self.next_value + 1;
        self.value_types.push(None);
        self.value_defs.push(None);
        proof {
            let f = self.function;
            assert forall|b: int, k: int| valid_pos(f, b, k) implies {
                let d = #[trigger] def_at(f, b, k);
                &&& d.0 < self.value_types@.len()
                &&& self.value_types@[d.0 as int] == Some(d.1)
                &&& (f.blocks@[b].instructions@[k] is Eval ==> d.0 < self.value_defs@.len()
                    && self.value_defs@[d.0 as int] == Some((b as usize, k as usize)))
            } by {
                let d = def_at(f, b, k);
                assert(d.0 < old(self).next_value);
                assert(self.value_types@[d.0 as int] == old(self).value_types@[d.0 as int]);
                assert(self.value_defs@[d.0 as int] == old(self).value_defs@[d.0 as int]);
            }
            assert forall|d: int| 0 <= d < self.value_defs@.len() implies match #[trigger] self.value_defs@[d] {
                Some((b, k)) => valid_pos(f, b as int, k as int) && def_at(f, b as int, k as int).0 == d
                    && f.blocks@[b as int].instructions@[k as int] is Eval,
                None => true,
            } by {
                if d < old(self).value_defs@.len() {
                    assert(self.value_defs@[d] == old(self).value_defs@[d]);
                }
            }
        }
        id
    }

    /// Appends `dest = value` of type `ty` to `block`, with a fresh `dest`,
    /// and records the type and the definition of `dest`.
    pub fn push_eval(&mut self, block: MirBlockId, value: MirValue, ty: MirValueType) -> (r: MirValueId)
        requires
            old(self).wf(),
            block.0 < old(self).num_blocks(),
            old(self).next_value < usize::MAX,
        ensures
            final(self).wf(),
            r.0 == old(self).next_value,
            final(self).next_value == old(self).next_value + 1,
            appended(old(self).function.blocks@, final(self).function.blocks@, block.0 as int,
                MirInstr::Eval { dest: r, value, ty }),
            final(self).function.entry == old(self).function.entry,
            final(self).function.name == old(self).function.name,
            final(self).function.return_type == old(self).function.return_type,
            final(self).type_of(r) == Some(ty),
            final(self).def_of(r) == Some(value),
            forall|v: MirValueId| v.0 < old(self).next_value ==> final(self).type_of(v) == old(self).type_of(v)
                && final(self).def_of(v) == old(self).def_of(v),
            final(self).locals == old(self).locals,
            final(self).loop_stack == old(self).loop_stack,
            final(self).same_context(old(self)),
    {
        let dest = self.fresh_value();
        let k = self.function.blocks[block.0].instructions.len();
        self.function.blocks[block.0].instructions.push(MirInstr::Eval { dest, value, ty });
        self.value_types.set(dest.0, Some(ty));
        self.value_defs.set(dest.0, Some((block.0, k)));
        proof {
            assert(self.value_types@ =~= old(self).value_types@.push(Some(ty)));
            assert(self.value_defs@ =~= old(self).value_defs@.push(Some((block.0, k))));
            lemma_append_new_def(*old(self), *self, block.0 as int, MirInstr::Eval { dest, value, ty });
        }
        dest
    }

    /// Whether `block` already has a terminator.
    pub fn is_terminated(&self, block: MirBlockId) -> (r: bool)
        requires
            block.0 < self.num_blocks(),
        ensures
            r == self.function.blocks@[block.0 as int].terminator is Some,
    {
        self.function.blocks[block.0].terminator.is_some()
    }

    /// Sets the terminator of `block` to `term`, which jumps only to existing
    /// blocks. Lowering makes a block before it jumps to it, so every
    /// terminator it sets has existing targets; keeping that so is what lets
    /// a finished function pass the structural checks of verification.
    pub fn set_terminator(&mut self, block: MirBlockId, term: MirTerminator)
        requires
            old(self).wf(),
            block.0 < old(self).num_blocks(),
            jumps_within(Some(term), old(self).num_blocks()),
        ensures
            final(self).wf(),
            terminated(old(self).function.blocks@, final(self).function.blocks@, block.0 as int, term),
            final(self).function.entry == old(self).function.entry,
            final(self).function.name == old(self).function.name,
            final(self).function.return_type == old(self).function.return_type,
            final(self).next_value == old(self).next_value,
            final(self).value_types == old(self).value_types,
            final(self).value_defs == old(self).value_defs,
            forall|v: MirValueId| final(self).def_of(v) == old(self).def_of(v),
            final(self).locals == old(self).locals,
            final(self).loop_stack == old(self).loop_stack,
            final(self).same_context(old(self)),
    {
        self.function.blocks[block.0].terminator = Some(term);
        proof {
            let f = self.function;
            let of = old(self).function;
            let b0 = block.0 as int;
            assert forall|b: int| 0 <= b < f.blocks@.len() implies f.blocks@[b].instructions == of.blocks@[b].instructions by {
                if b != b0 {
                    assert(f.blocks@[b] == of.blocks@[b]);
                }
            }
            assert forall|b: int, k2: int| valid_pos(f, b, k2) <==> valid_pos(of, b, k2) by {
                if 0 <= b < f.blocks@.len() {
                    assert(f.blocks@[b].instructions == of.blocks@[b].instructions);
                }
            }
            assert forall|b: int, k2: int| valid_pos(f, b, k2) implies def_at(f, b, k2) == def_at(of, b, k2)
                && f.blocks@[b].instructions@[k2] == of.blocks@[b].instructions@[k2] by {
                assert(f.blocks@[b].instructions == of.blocks@[b].instructions);
            }
            assert forall|b: int| 0 <= b < f.blocks@.len() implies (#[trigger] f.blocks@[b]).id.0 == b
                && jumps_within(f.blocks@[b].terminator, f.blocks@.len()) by {
                if b != b0 {
                    assert(f.blocks@[b] == of.blocks@[b]);
                }
                assert(jumps_within(of.blocks@[b].terminator, of.blocks@.len()));
            }
            assert forall|b1: int, k1: int, b2: int, k2: int|
                valid_pos(f, b1, k1) && valid_pos(f, b2, k2) && (b1 != b2 || k1 != k2)
                implies #[trigger] def_at(f, b1, k1).0 != #[trigger] def_at(f, b2, k2).0 by {
                assert(valid_pos(of, b1, k1) && valid_pos(of, b2, k2));
            }
            assert forall|d: int| 0 <= d < self.value_defs@.len() implies match #[trigger] self.value_defs@[d] {
                Some((b, k2)) => valid_pos(f, b as int, k2 as int) && def_at(f, b as int, k2 as int).0 == d
                    && f.blocks@[b as int].instructions@[k2 as int] is Eval,
                None => true,
            } by {
                match self.value_defs@[d] {
                    Some((b, k2)) => {
                        assert(valid_pos(of, b as int, k2 as int));
                    },
                    None => {},
                }
            }
            assert forall|v: MirValueId| self.def_of(v) == old(self).def_of(v) by {
                if v.0 < self.value_defs@.len() {
                    match self.value_defs@[v.0 as int] {
                        Some((b, k2)) => {
                            assert(valid_pos(of, b as int, k2 as int));
                            assert(f.blocks@[b as int].instructions == of.blocks@[b as int].instructions);
                        },
                        None => {},
                    }
                }
            }
        }
    }

    /// The position of local `name` in the list of bindings.
    fn find_local(&self, name: &str) -> (r: Option<usize>)
        ensures
            match r {
                Some(i) => i < self.locals@.len() && self.locals@[i as int].0@ == name@,
                None => forall|j: int| 0 <= j < self.locals@.len() ==> (#[trigger] self.locals@[j]).0@ != name@,
            },
    {
        let mut i: usize = 0;
        while i < self.locals.len()
            invariant
                i <= self.locals@.len(),
                forall|j: int| 0 <= j < i ==> (#[trigger] self.locals@[j]).0@ != name@,
            decreases self.locals.len() - i,
        {
            if string_eq_str(&self.locals[i].0, name) {
                return Some(i);
            }
            i = i + 1;
        }
        None
    }

    /// Binds local `name` to `value` and returns what it was bound to before.
    fn insert_local(&mut self, name: String, value: MirValueId) -> (r: Option<MirValueId>)
        requires
            keys_unique(old(self).locals@),
            value.0 < old(self).next_value,
            forall|i: int| 0 <= i < old(self).locals@.len() ==> (#[trigger] old(self).locals@[i]).1.0 < old(self).next_value,
        ensures
            keys_unique(final(self).locals@),
            forall|i: int| 0 <= i < final(self).locals@.len() ==> (#[trigger] final(self).locals@[i]).1.0 < final(self).next_value,
            r == old(self).local(name@),
            forall|x: Seq<char>| #[trigger] final(self).local(x) == if x == name@ { Some(value) } else { old(self).local(x) },
            final(self).function == old(self).function,
            final(self).next_value == old(self).next_value,
            final(self).value_types == old(self).value_types,
            final(self).value_defs == old(self).value_defs,
            final(self).loop_stack == old(self).loop_stack,
            final(self).same_context(old(self)),
    {
        let ghost s0 = self.locals@;
        let ghost k = name@;
        proof { lemma_assoc_find_unique(s0, k); }
        match self.find_local(name.as_str()) {
            Some(i) => {
                let prev = self.locals[i].1;
                self.locals.set(i, (name, value));
                proof {
                    let s1 = self.locals@;
                    assert forall|a: int, b: int| 0 <= a < b < s1.len() implies (#[trigger] s1[a]).0@ != (#[trigger] s1[b]).0@ by {
                        assert(s0[a].0@ != s0[b].0@);
                    }
                    assert forall|x: Seq<char>| #[trigger] assoc_find(s1, x) == if x == k { Some(value) } else { assoc_find(s0, x) } by {
                        lemma_assoc_find_unique(s1, x);
                        lemma_assoc_find_unique(s0, x);
                        if x == k {
                            assert(s1[i as int].0@ == x);
                        } else if exists|j: int| 0 <= j < s0.len() && (#[trigger] s0[j]).0@ == x {
                            let j = choose|j: int| 0 <= j < s0.len() && (#[trigger] s0[j]).0@ == x;
                            assert(j != i);
                            assert(s1[j] == s0[j]);
                        } else {
                            assert forall|j: int| 0 <= j < s1.len() implies (#[trigger] s1[j]).0@ != x by {
                                if j != i {
                                    assert(s1[j] == s0[j]);
                                }
                            }
                        }
                    }
                }
                Some(prev)
            },
            None => {
                self.locals.push((name, value));
                proof {
                    let s1 = self.locals@;
                    assert forall|a: int, b: int| 0 <= a < b < s1.len() implies (#[trigger] s1[a]).0@ != (#[trigger] s1[b]).0@ by {
                        if b < s0.len() {
                            assert(s0[a].0@ != s0[b].0@);
                        } else {
                            assert(s1[a] == s0[a]);
                        }
                    }
                    assert forall|x: Seq<char>| #[trigger] assoc_find(s1, x) == if x == k { Some(value) } else { assoc_find(s0, x) } by {
                        lemma_assoc_find_unique(s1, x);
                        lemma_assoc_find_unique(s0, x);
                        if x == k {
                            assert(s1[s0.len() as int].0@ == x);
                        } else if exists|j: int| 0 <= j < s0.len() && (#[trigger] s0[j]).0@ == x {
                            let j = choose|j: int| 0 <= j < s0.len() && (#[trigger] s0[j]).0@ == x;
                            assert(s1[j] == s0[j]);
                        } else {
                            assert forall|j: int| 0 <= j < s1.len() implies (#[trigger] s1[j]).0@ != x by {
                                if j < s0.len() {
                                    assert(s1[j] == s0[j]);
                                }
                            }
                        }
                    }
                }
                None
            },
        }
    }

    /// Removes the binding of local `name`.
    fn remove_local(&mut self, name: &String)
        requires
            keys_unique(old(self).locals@),
            forall|i: int| 0 <= i < old(self).locals@.len() ==> (#[trigger] old(self).locals@[i]).1.0 < old(self).next_value,
        ensures
            keys_unique(final(self).locals@),
            forall|i: int| 0 <= i < final(self).locals@.len() ==> (#[trigger] final(self).locals@[i]).1.0 < final(self).next_value,
            forall|x: Seq<char>| #[trigger] final(self).local(x) == if x == name@ { None } else { old(self).local(x) },
            final(self).function == old(self).function,
            final(self).next_value == old(self).next_value,
            final(self).value_types == old(self).value_types,
            final(self).value_defs == old(self).value_defs,
            final(self).loop_stack == old(self).loop_stack,
            final(self).same_context(old(self)),
    {
        let ghost s0 = self.locals@;
        let ghost k = name@;
        match self.find_local(name.as_str()) {
            Some(i) => {
                self.locals.remove(i);
                proof {
                    let s1 = self.locals@;
                    assert(s1 == s0.remove(i as int));
                    assert forall|j: int| 0 <= j < s1.len() implies #[trigger] s1[j] == if j < i { s0[j] } else { s0[j + 1] } by {}
                    assert forall|a: int, b: int| 0 <= a < b < s1.len() implies (#[trigger] s1[a]).0@ != (#[trigger] s1[b]).0@ by {
                        let a0 = if a < i { a } else { a + 1 };
                        let b0 = if b < i { b } else { b + 1 };
                        assert(s1[a] == s0[a0] && s1[b] == s0[b0]);
                        assert(s0[a0].0@ != s0[b0].0@);
                    }
                    assert forall|x: Seq<char>| #[trigger] assoc_find(s1, x) == if x == k { None } else { assoc_find(s0, x) } by {
                        lemma_assoc_find_unique(s1, x);
                        lemma_assoc_find_unique(s0, x);
                        if x == k {
                            assert forall|j: int| 0 <= j < s1.len() implies (#[trigger] s1[j]).0@ != x by {
                                let j0 = if j < i { j } else { j + 1 };
                                assert(s1[j] == s0[j0]);
                                assert(j0 != i);
                                assert(s0[j0].0@ != s0[i as int].0@);
                            }
                        } else if exists|j: int| 0 <= j < s0.len() && (#[trigger] s0[j]).0@ == x {
                            let j = choose|j: int| 0 <= j < s0.len() && (#[trigger] s0[j]).0@ == x;
                            assert(j != i);
                            let j1 = if j < i { j } else { j - 1 };
                            assert(s1[j1] == s0[j]);
                        } else {
                            assert forall|j: int| 0 <= j < s1.len() implies (#[trigger] s1[j]).0@ != x by {
                                let j0 = if j < i { j } else { j + 1 };
                                assert(s1[j] == s0[j0]);
                            }
                        }
                    }
                }
            },
            None => {
                proof {
                    assert forall|x: Seq<char>| #[trigger] assoc_find(s0, x) == if x == k { None } else { assoc_find(s0, x) } by {
                        if x == k {
                            lemma_assoc_find_none(s0, x);
                        }
                    }
                }
            },
        }
    }

    /// Binds local `name` to `value`, returning the name with its previous
    /// binding so that it can be restored.
    pub fn save_local_binding(&mut self, name: &str, value: MirValueId) -> (r: (String, Option<MirValueId>))
        requires
            old(self).wf(),
            value.0 < old(self).next_value,
        ensures
            final(self).wf(),
            r.0@ == name@,
            r.1 == old(self).local(name@),
            forall|x: Seq<char>| #[trigger] final(self).local(x) == if x == name@ { Some(value) } else { old(self).local(x) },
            final(self).function == old(self).function,
            final(self).next_value == old(self).next_value,
            final(self).value_types == old(self).value_types,
            final(self).value_defs == old(self).value_defs,
            final(self).loop_stack == old(self).loop_stack,
            final(self).same_context(old(self)),
    {
        let name = string_from_str(name);
        let previous = self.insert_local(name.clone(), value);
        (name, previous)
    }

    /// Restores a binding saved by `save_local_binding`: rebinds the name to
    /// its previous value, or unbinds it if it had none.
    pub fn restore_saved_local_binding(&mut self, saved: (String, Option<MirValueId>))
        requires
            old(self).wf(),
            saved.1 matches Some(v) ==> v.0 < old(self).next_value,
        ensures
            final(self).wf(),
            forall|x: Seq<char>| #[trigger] final(self).local(x) == if x == saved.0@ { saved.1 } else { old(self).local(x) },
            final(self).function == old(self).function,
            final(self).next_value == old(self).next_value,
            final(self).value_types == old(self).value_types,
            final(self).value_defs == old(self).value_defs,
            final(self).loop_stack == old(self).loop_stack,
            final(self).same_context(old(self)),
    {
        let (name, previous) = saved;
        match previous {
            Some(previous) => {
                self.insert_local(name, previous);
            },
            None => {
                self.remove_local(&name);
            },
        }
    }

    /// Restores saved bindings in order.
    pub fn restore_local_bindings(&mut self, saved: Vec<(String, Option<MirValueId>)>)
        requires
            old(self).wf(),
            forall|i: int| 0 <= i < saved@.len() ==> ((#[trigger] saved@[i]).1 matches Some(v) ==> v.0 < old(self).next_value),
        ensures
            final(self).wf(),
            forall|x: Seq<char>| #[trigger] final(self).local(x) == restore_result(saved@, x, old(self).local(x)),
            final(self).function == old(self).function,
            final(self).next_value == old(self).next_value,
            final(self).value_types == old(self).value_types,
            final(self).value_defs == old(self).value_defs,
            final(self).loop_stack == old(self).loop_stack,
            final(self).same_context(old(self)),
    {
        let mut i: usize = 0;
        while i < saved.len()
            invariant
                i <= saved@.len(),
                self.wf(),
                forall|i: int| 0 <= i < saved@.len() ==> ((#[trigger] saved@[i]).1 matches Some(v) ==> v.0 < old(self).next_value),
                forall|x: Seq<char>| #[trigger] self.local(x) == restore_result(saved@.take(i as int), x, old(self).local(x)),
                self.function == old(self).function,
                self.next_value == old(self).next_value,
                self.value_types == old(self).value_types,
                self.value_defs == old(self).value_defs,
                self.loop_stack == old(self).loop_stack,
                self.same_context(old(self)),
            decreases saved.len() - i,
        {
            let entry = (saved[i].0.clone(), saved[i].1);
            self.restore_saved_local_binding(entry);
            proof {
                assert(saved@.take(i + 1).drop_last() =~= saved@.take(i as int));
                assert(saved@.take(i + 1).last() == saved@[i as int]);
            }
            i = i + 1;
        }
        assert(saved@.take(saved@.len() as int) =~= saved@);
    }

    /// The recorded type of value `id`.
    pub fn value_type(&self, id: MirValueId) -> (r: Option<MirValueType>)
        ensures
            r == self.type_of(id),
    {
        if id.0 < self.value_types.len() {
            self.value_types[id.0]
        } else {
            None
        }
    }

    /// The common type of the recorded types of the values that `breaks`
    /// carry, merged left to right; `None` when none of them has a type.
    pub open spec fn merged_type_of(&self, breaks: Seq<(MirBlockId, MirValueId)>) -> Option<MirValueType> {
        merged_types(self.value_types@, breaks)
    }

    /// Appends a phi of type `ty` over `sources` to `block`, with a fresh
    /// value, and records its type.
    fn push_phi(&mut self, block: MirBlockId, sources: Vec<(MirBlockId, MirValueId)>, ty: MirValueType) -> (r: MirValueId)
        requires
            old(self).wf(),
            block.0 < old(self).num_blocks(),
            old(self).next_value < usize::MAX,
        ensures
            final(self).wf(),
            r.0 == old(self).next_value,
            final(self).next_value == old(self).next_value + 1,
            appended(old(self).function.blocks@, final(self).function.blocks@, block.0 as int,
                MirInstr::Phi { dest: r, sources, ty }),
            final(self).function.entry == old(self).function.entry,
            final(self).function.name == old(self).function.name,
            final(self).function.return_type == old(self).function.return_type,
            final(self).type_of(r) == Some(ty),
            forall|v: MirValueId| v.0 < old(self).next_value ==> final(self).type_of(v) == old(self).type_of(v)
                && final(self).def_of(v) == old(self).def_of(v),
            final(self).locals == old(self).locals,
            final(self).loop_stack == old(self).loop_stack,
            final(self).same_context(old(self)),
    {
        let dest = self.fresh_value();
        let k = self.function.blocks[block.0].instructions.len();
        self.function.blocks[block.0].instructions.push(MirInstr::Phi { dest, sources, ty });
        self.value_types.set(dest.0, Some(ty));
        proof {
            assert(self.value_types@ =~= old(self).value_types@.push(Some(ty)));
            assert(self.value_defs@ =~= old(self).value_defs@.push(None));
            lemma_append_new_def(*old(self), *self, block.0 as int, MirInstr::Phi { dest, sources, ty });
        }
        dest
    }

    /// Ends `from` with a jump to `to` unless it already has a terminator.
    pub fn set_goto_if_not_terminated(&mut self, from: MirBlockId, to: MirBlockId)
        requires
            old(self).wf(),
            from.0 < old(self).num_blocks(),
            to.0 < old(self).num_blocks(),
        ensures
            final(self).wf(),
            old(self).function.blocks@[from.0 as int].terminator is Some ==> *final(self) == *old(self),
            old(self).function.blocks@[from.0 as int].terminator is None ==> terminated(
                old(self).function.blocks@, final(self).function.blocks@, from.0 as int, MirTerminator::Goto(to)),
            final(self).function.entry == old(self).function.entry,
            final(self).next_value == old(self).next_value,
            final(self).value_types == old(self).value_types,
            final(self).value_defs == old(self).value_defs,
            forall|v: MirValueId| final(self).def_of(v) == old(self).def_of(v),
            final(self).locals == old(self).locals,
            final(self).loop_stack == old(self).loop_stack,
            final(self).same_context(old(self)),
    {
        if !self.is_terminated(from) {
            self.set_terminator(from, MirTerminator::Goto(to));
        }
    }

    /// Enters a loop whose `continue` jumps to `continue_target` and whose
    /// `break` jumps to `break_target`.
    pub fn push_loop_context(&mut self, continue_target: MirBlockId, break_target: MirBlockId)
        ensures
            final(self).loop_stack@.len() == old(self).loop_stack@.len() + 1,
            final(self).loop_stack@.drop_last() == old(self).loop_stack@,
            final(self).loop_stack@.last().continue_target == continue_target,
            final(self).loop_stack@.last().break_target == break_target,
            final(self).loop_stack@.last().break_values@.len() == 0,
            final(self).function == old(self).function,
            final(self).next_value == old(self).next_value,
            final(self).value_types == old(self).value_types,
            final(self).value_defs == old(self).value_defs,
            final(self).locals == old(self).locals,
            final(self).same_context(old(self)),
    {
        self.loop_stack.push(LoopContext { continue_target, break_target, break_values: Vec::new() });
        assert(self.loop_stack@.drop_last() =~= old(self).loop_stack@);
    }

    /// The value a loop yields from the values its `break`s carry: none
    /// without such values, the one value when there is one, and otherwise a
    /// new phi over them in `exit`, typed by merging their recorded types.
    pub fn build_loop_break_value(&mut self, exit: MirBlockId, break_values: Vec<(MirBlockId, MirValueId)>) -> (r: Option<MirValueId>)
        requires
            old(self).wf(),
            exit.0 < old(self).num_blocks(),
            old(self).next_value < usize::MAX,
        ensures
            final(self).wf(),
            break_values@.len() == 0 ==> r is None && *final(self) == *old(self),
            break_values@.len() == 1 ==> r == Some(break_values@[0].1) && *final(self) == *old(self),
            break_values@.len() > 1 ==> {
                let ty = match old(self).merged_type_of(break_values@) { Some(t) => t, None => MirValueType::Unknown };
                &&& r == Some(MirValueId(old(self).next_value))
                &&& final(self).next_value == old(self).next_value + 1
                &&& appended(old(self).function.blocks@, final(self).function.blocks@, exit.0 as int,
                    MirInstr::Phi { dest: MirValueId(old(self).next_value), sources: break_values, ty })
                &&& final(self).type_of(MirValueId(old(self).next_value)) == Some(ty)
                &&& forall|v: MirValueId| v.0 < old(self).next_value ==> final(self).type_of(v) == old(self).type_of(v)
                    && final(self).def_of(v) == old(self).def_of(v)
            },
            final(self).function.entry == old(self).function.entry,
            final(self).locals == old(self).locals,
            final(self).loop_stack == old(self).loop_stack,
            final(self).same_context(old(self)),
    {
        if break_values.len() == 0 {
            return None;
        }
        if break_values.len() == 1 {
            return Some(break_values[0].1);
        }
        let mut merged: Option<MirValueType> = None;
        let mut i: usize = 0;
        while i < break_values.len()
            invariant
                i <= break_values@.len(),
                merged == self.merged_type_of(break_values@.take(i as int)),
            decreases break_values.len() - i,
        {
            let t = self.value_type(break_values[i].1);
            proof {
                assert(break_values@.take(i + 1).drop_last() =~= break_values@.take(i as int));
                assert(break_values@.take(i + 1).last() == break_values@[i as int]);
            }
            match t {
                None => {},
                Some(t) => {
                    merged = match merged {
                        None => Some(t),
                        Some(p) => Some(merge_types(&p, &t)),
                    };
                },
            }
            i = i + 1;
        }
        assert(break_values@.take(break_values@.len() as int) =~= break_values@);
        let ty = match merged {
            Some(t) => t,
            None => MirValueType::Unknown,
        };
        let dest = self.push_phi(exit, break_values, ty);
        Some(dest)
    }

    /// Leaves the innermost loop, whose exit block is `exit`, and returns the
    /// exit with the value the loop yields.
    pub fn finish_loop(&mut self, exit: MirBlockId) -> (r: (MirBlockId, Option<MirValueId>))
        requires
            old(self).wf(),
            old(self).loop_stack@.len() > 0,
            exit.0 < old(self).num_blocks(),
            old(self).next_value < usize::MAX,
        ensures
            final(self).wf(),
            r.0 == exit,
            final(self).loop_stack@ == old(self).loop_stack@.drop_last(),
            ({
                let bv = old(self).loop_stack@.last().break_values;
                &&& bv@.len() == 0 ==> r.1 is None && final(self).function == old(self).function
                    && final(self).next_value == old(self).next_value
                &&& bv@.len() == 1 ==> r.1 == Some(bv@[0].1) && final(self).function == old(self).function
                    && final(self).next_value == old(self).next_value
                &&& bv@.len() > 1 ==> {
                    let ty = match old(self).merged_type_of(bv@) { Some(t) => t, None => MirValueType::Unknown };
                    &&& r.1 == Some(MirValueId(old(self).next_value))
                    &&& final(self).next_value == old(self).next_value + 1
                    &&& appended(old(self).function.blocks@, final(self).function.blocks@, exit.0 as int,
                        MirInstr::Phi { dest: MirValueId(old(self).next_value), sources: bv, ty })
                    &&& final(self).type_of(MirValueId(old(self).next_value)) == Some(ty)
                }
            }),
            final(self).function.entry == old(self).function.entry,
            final(self).locals == old(self).locals,
            final(self).same_context(old(self)),
    {
        let ctx = self.loop_stack.pop().unwrap();
        let value = self.build_loop_break_value(exit, ctx.break_values);
        (exit, value)
    }

    /// Adds `(backedge_block, next_value)` to the sources of the phi that
    /// opens `header`, if `header` opens with a phi.
    pub fn append_loop_phi_source(&mut self, header: MirBlockId, backedge_block: MirBlockId, next_value: MirValueId)
        requires
            old(self).wf(),
            header.0 < old(self).num_blocks(),
        ensures
            final(self).wf(),
            ({
                let ins = old(self).function.blocks@[header.0 as int].instructions@;
                &&& (ins.len() > 0 && ins[0] is Phi) ==> phi_source_added(old(self).function.blocks@,
                    final(self).function.blocks@, header.0 as int, 0, (backedge_block, next_value))
                &&& !(ins.len() > 0 && ins[0] is Phi) ==> final(self).function == old(self).function
            }),
            final(self).function.entry == old(self).function.entry,
            final(self).next_value == old(self).next_value,
            final(self).value_types == old(self).value_types,
            final(self).value_defs == old(self).value_defs,
            forall|v: MirValueId| final(self).type_of(v) == old(self).type_of(v) && final(self).def_of(v) == old(self).def_of(v),
            final(self).locals == old(self).locals,
            final(self).loop_stack == old(self).loop_stack,
            final(self).same_context(old(self)),
    {
        let opens_with_phi = self.function.blocks[header.0].instructions.len() > 0 && match &self.function.blocks[header.0].instructions[0] {
            MirInstr::Phi { .. } => true,
            MirInstr::Eval { .. } => false,
        };
        if opens_with_phi {
            match &mut self.function.blocks[header.0].instructions[0] {
                MirInstr::Phi { sources, .. } => {
                    sources.push((backedge_block, next_value));
                },
                MirInstr::Eval { .. } => {},
            }
        }
        proof {
            let ins = old(self).function.blocks@[header.0 as int].instructions@;
            if ins.len() > 0 && ins[0] is Phi {
                lemma_phi_source_added(*old(self), *self, header.0 as int, 0, (backedge_block, next_value));
            }
        }
    }

    /// The value that local `name` is bound to.
    pub fn get_local(&self, name: &str) -> (r: Option<MirValueId>)
        requires
            keys_unique(self.locals@),
        ensures
            r == self.local(name@),
    {
        proof { lemma_assoc_find_unique(self.locals@, name@); }
        match self.find_local(name) {
            Some(i) => Some(self.locals[i].1),
            None => None,
        }
    }

    /// Opens loop header `header`, entered from `incoming_block`: each local
    /// that `body` assigns and that is bound gets a phi in `header` whose one
    /// source is its current value from `incoming_block`, typed as that value,
    /// and is rebound to the phi. Returns the names with their phis, in
    /// increasing order of name.
    pub fn prepare_loop_carried_locals(&mut self, header: MirBlockId, incoming_block: MirBlockId, body: &HirExpr) -> (r: Vec<(String, MirValueId)>)
        requires
            old(self).wf(),
            header.0 < old(self).num_blocks(),
            old(self).next_value + spec_assigned(*body).len() < usize::MAX,
        ensures
            final(self).wf(),
            strictly_sorted(names_of(r@)),
            forall|n: Seq<char>| names_of(r@).contains(n) <==> (spec_assigned(*body).contains(n) && old(self).local(n) is Some),
            forall|j: int| 0 <= j < r@.len() ==> (#[trigger] r@[j]).1.0 == old(self).next_value + j,
            final(self).next_value == old(self).next_value + r@.len(),
            final(self).function.blocks@.len() == old(self).function.blocks@.len(),
            forall|b: int| 0 <= b < old(self).num_blocks() && b != header.0 ==> #[trigger] final(self).function.blocks@[b]
                == old(self).function.blocks@[b],
            final(self).function.blocks@[header.0 as int].id == old(self).function.blocks@[header.0 as int].id,
            final(self).function.blocks@[header.0 as int].terminator == old(self).function.blocks@[header.0 as int].terminator,
            ({
                let oi = old(self).function.blocks@[header.0 as int].instructions@;
                let ni = final(self).function.blocks@[header.0 as int].instructions@;
                &&& ni.len() == oi.len() + r@.len()
                &&& ni.take(oi.len() as int) == oi
                &&& forall|j: int| 0 <= j < r@.len() ==> {
                    let cur = old(self).local((#[trigger] r@[j]).0@).unwrap();
                    single_source_phi(ni[oi.len() + j], r@[j].1, type_or_unknown(old(self).type_of(cur)), (incoming_block, cur))
                }
            }),
            forall|j: int| 0 <= j < r@.len() ==> final(self).type_of((#[trigger] r@[j]).1) == Some(
                type_or_unknown(old(self).type_of(old(self).local(r@[j].0@).unwrap()))),
            forall|v: MirValueId| v.0 < old(self).next_value ==> final(self).type_of(v) == old(self).type_of(v)
                && final(self).def_of(v) == old(self).def_of(v),
            forall|x: Seq<char>| #[trigger] final(self).local(x) == match assoc_find(r@, x) {
                Some(v) => Some(v),
                None => old(self).local(x),
            },
            final(self).function.entry == old(self).function.entry,
            final(self).loop_stack == old(self).loop_stack,
            final(self).same_context(old(self)),
    {
        let names = assigned_local_names(body);
        let ghost nv = views(names@);
        let ghost h = header.0 as int;
        let ghost oi = old(self).function.blocks@[h].instructions@;
        proof {
            assert(nv.len() == names@.len());
            assert(nv.no_duplicates()) by {
                assert forall|a: int, b: int| 0 <= a < nv.len() && 0 <= b < nv.len() && a != b implies nv[a] != nv[b] by {
                    if a < b {
                        assert(seq_lt(nv[a], nv[b]));
                    } else {
                        assert(seq_lt(nv[b], nv[a]));
                    }
                    crate::name_set::lemma_lt_irreflexive(nv[a]);
                }
            }
            nv.unique_seq_to_set();
        }
        let mut carried: Vec<(String, MirValueId)> = Vec::new();
        let mut i: usize = 0;
        while i < names.len()
            invariant
                i <= names@.len(),
                nv == views(names@),
                strictly_sorted(nv),
                nv.to_set() == spec_assigned(*body),
                nv.len() == spec_assigned(*body).len(),
                old(self).next_value + nv.len() < usize::MAX,
                old(self).wf(),
                self.wf(),
                h == header.0,
                h < old(self).num_blocks(),
                oi == old(self).function.blocks@[h].instructions@,
                carried@.len() <= i,
                strictly_sorted(names_of(carried@)),
                forall|j: int| 0 <= j < carried@.len() ==> exists|idx: int| 0 <= idx < i && nv[idx] == (#[trigger] carried@[j]).0@,
                forall|n: Seq<char>| names_of(carried@).contains(n) <==> (exists|idx: int| 0 <= idx < i && nv[idx] == n
                    && old(self).local(n) is Some),
                forall|j: int| 0 <= j < carried@.len() ==> (#[trigger] carried@[j]).1.0 == old(self).next_value + j,
                self.next_value == old(self).next_value + carried@.len(),
                self.function.blocks@.len() == old(self).function.blocks@.len(),
                forall|b: int| 0 <= b < old(self).num_blocks() && b != h ==> #[trigger] self.function.blocks@[b]
                    == old(self).function.blocks@[b],
                self.function.blocks@[h].id == old(self).function.blocks@[h].id,
                self.function.blocks@[h].terminator == old(self).function.blocks@[h].terminator,
                self.function.blocks@[h].instructions@.len() == oi.len() + carried@.len(),
                self.function.blocks@[h].instructions@.take(oi.len() as int) == oi,
                forall|j: int| 0 <= j < carried@.len() ==> {
                    let cur = old(self).local((#[trigger] carried@[j]).0@).unwrap();
                    single_source_phi(self.function.blocks@[h].instructions@[oi.len() + j], carried@[j].1,
                        type_or_unknown(old(self).type_of(cur)), (incoming_block, cur))
                },
                forall|j: int| 0 <= j < carried@.len() ==> self.type_of((#[trigger] carried@[j]).1) == Some(
                    type_or_unknown(old(self).type_of(old(self).local(carried@[j].0@).unwrap()))),
                forall|v: MirValueId| v.0 < old(self).next_value ==> self.type_of(v) == old(self).type_of(v)
                    && self.def_of(v) == old(self).def_of(v),
                forall|x: Seq<char>| #[trigger] self.local(x) == match assoc_find(carried@, x) {
                    Some(v) => Some(v),
                    None => old(self).local(x),
                },
                self.function.entry == old(self).function.entry,
                self.loop_stack == old(self).loop_stack,
                self.same_context(old(self)),
            decreases names.len() - i,
        {
            let ghost pre = *self;
            let ghost ci = carried@;
            let name = names[i].clone();
            proof {
                assert(nv[i as int] == name@);
                lemma_sorted_names_unique(ci);
                lemma_assoc_find_unique(ci, name@);
                assert forall|j: int| 0 <= j < ci.len() implies (#[trigger] ci[j]).0@ != name@ by {
                    let idx = choose|idx: int| 0 <= idx < i && nv[idx] == ci[j].0@;
                    assert(seq_lt(nv[idx], nv[i as int]));
                    crate::name_set::lemma_lt_irreflexive(nv[idx]);
                }
            }
            match self.get_local(name.as_str()) {
                None => {
                    proof {
                        assert forall|n: Seq<char>| names_of(carried@).contains(n) <==> (exists|idx: int| 0 <= idx < i + 1 && nv[idx] == n
                            && old(self).local(n) is Some) by {
                            if exists|idx: int| 0 <= idx < i + 1 && nv[idx] == n && old(self).local(n) is Some {
                                let idx = choose|idx: int| 0 <= idx < i + 1 && nv[idx] == n && old(self).local(n) is Some;
                                if idx == i {
                                    assert(self.local(name@) == old(self).local(name@));
                                }
                            }
                        }
                    }
                },
                Some(current) => {
                    let ty = match self.value_type(current) {
                        Some(t) => t,
                        None => MirValueType::Unknown,
                    };
                    let mut sources: Vec<(MirBlockId, MirValueId)> = Vec::new();
                    sources.push((incoming_block, current));
                    proof {
                        assert(carried@.len() <= nv.len());
                        assert(self.next_value < usize::MAX);
                    }
                    let phi = self.push_phi(header, sources, ty);
                    let ghost mid = *self;
                    self.insert_local(name.clone(), phi);
                    carried.push((name, phi));
                    proof {
                        let c = carried@;
                        assert(c.drop_last() == ci);
                        assert(current == old(self).local(name@).unwrap());
                        assert forall|a: int, b: int| 0 <= a < b < c.len() implies seq_lt(#[trigger] names_of(c)[a], #[trigger] names_of(c)[b]) by {
                            if b < ci.len() {
                                assert(names_of(ci)[a] == names_of(c)[a]);
                                assert(names_of(ci)[b] == names_of(c)[b]);
                            } else {
                                let idx = choose|idx: int| 0 <= idx < i && nv[idx] == ci[a].0@;
                                assert(seq_lt(nv[idx], nv[i as int]));
                            }
                        }
                        assert forall|j: int| 0 <= j < c.len() implies exists|idx: int| 0 <= idx < i + 1 && nv[idx] == (#[trigger] c[j]).0@ by {
                            if j < ci.len() {
                                assert(c[j] == ci[j]);
                                let idx = choose|idx: int| 0 <= idx < i && nv[idx] == ci[j].0@;
                                assert(nv[idx] == c[j].0@);
                            } else {
                                assert(nv[i as int] == c[j].0@);
                            }
                        }
                        assert forall|n: Seq<char>| names_of(c).contains(n) <==> (exists|idx: int| 0 <= idx < i + 1 && nv[idx] == n
                            && old(self).local(n) is Some) by {
                            if names_of(c).contains(n) {
                                let j = choose|j: int| 0 <= j < names_of(c).len() && names_of(c)[j] == n;
                                if j < ci.len() {
                                    assert(names_of(ci)[j] == n);
                                    assert(names_of(ci).contains(n));
                                } else {
                                    assert(nv[i as int] == n);
                                }
                            }
                            if exists|idx: int| 0 <= idx < i + 1 && nv[idx] == n && old(self).local(n) is Some {
                                let idx = choose|idx: int| 0 <= idx < i + 1 && nv[idx] == n && old(self).local(n) is Some;
                                if idx < i {
                                    assert(names_of(ci).contains(n));
                                    let j = choose|j: int| 0 <= j < names_of(ci).len() && names_of(ci)[j] == n;
                                    assert(names_of(c)[j] == n);
                                } else {
                                    assert(names_of(c)[ci.len() as int] == n);
                                }
                            }
                        }
                        let hi = self.function.blocks@[h].instructions@;
                        let pi = pre.function.blocks@[h].instructions@;
                        assert(hi == pi.push(MirInstr::Phi { dest: phi, sources: sources, ty }));
                        assert(hi.take(oi.len() as int) =~= pi.take(oi.len() as int));
                        assert forall|j: int| 0 <= j < c.len() implies {
                            let cur = old(self).local((#[trigger] c[j]).0@).unwrap();
                            single_source_phi(hi[oi.len() + j], c[j].1, type_or_unknown(old(self).type_of(cur)), (incoming_block, cur))
                        } by {
                            if j < ci.len() {
                                assert(c[j] == ci[j]);
                                assert(hi[oi.len() + j] == pi[oi.len() + j]);
                            } else {
                                assert(sources@ =~= seq![(incoming_block, current)]);
                                let ol = old(self).locals@;
                                lemma_assoc_find_unique(ol, name@);
                                let jj = choose|jj: int| 0 <= jj < ol.len() && (#[trigger] ol[jj]).0@ == name@;
                                assert(ol[jj].1 == current);
                                assert(current.0 < old(self).next_value);
                                assert(pre.type_of(current) == old(self).type_of(current));
                            }
                        }
                        assert forall|j: int| 0 <= j < c.len() implies self.type_of((#[trigger] c[j]).1) == Some(
                            type_or_unknown(old(self).type_of(old(self).local(c[j].0@).unwrap()))) by {
                            if j < ci.len() {
                                assert(c[j] == ci[j]);
                                assert(ci[j].1.0 < pre.next_value);
                            }
                        }
                        assert forall|x: Seq<char>| #[trigger] self.local(x) == match assoc_find(c, x) {
                            Some(v) => Some(v),
                            None => old(self).local(x),
                        } by {
                            lemma_sorted_names_unique(c);
                            lemma_assoc_find_unique(c, x);
                            assert(mid.local(x) == pre.local(x));
                            lemma_assoc_find_unique(ci, x);
                            if x == name@ {
                                assert(c[ci.len() as int].0@ == x);
                                assert(self.local(x) == Some(phi));
                            } else if exists|j: int| 0 <= j < ci.len() && (#[trigger] ci[j]).0@ == x {
                                let j = choose|j: int| 0 <= j < ci.len() && (#[trigger] ci[j]).0@ == x;
                                assert(c[j] == ci[j]);
                            } else {
                                assert forall|j: int| 0 <= j < c.len() implies (#[trigger] c[j]).0@ != x by {
                                    if j < ci.len() {
                                        assert(c[j] == ci[j]);
                                    }
                                }
                            }
                        }
                    }
                },
            }
            i = i + 1;
        }
        proof {
            assert(names@.len() == nv.len());
            assert forall|n: Seq<char>| names_of(carried@).contains(n) <==> (spec_assigned(*body).contains(n) && old(self).local(n) is Some) by {
                if spec_assigned(*body).contains(n) {
                    assert(nv.to_set().contains(n));
                    assert(nv.contains(n));
                }
                if exists|idx: int| 0 <= idx < i && nv[idx] == n && old(self).local(n) is Some {
                    let idx = choose|idx: int| 0 <= idx < i && nv[idx] == n && old(self).local(n) is Some;
                    assert(nv.contains(n));
                    assert(nv.to_set().contains(n));
                }
            }
        }
        carried
    }

    /// Closes loop header `header` along the back edge from `backedge_block`:
    /// for each carried local in order, the phi it names in `header` gets as
    /// a new source the local's current value (the phi itself if unbound),
    /// and the local is bound to the phi again.
    pub fn finalize_loop_carried_locals(&mut self, header: MirBlockId, backedge_block: MirBlockId, carried: &[(String, MirValueId)])
        requires
            old(self).wf(),
            header.0 < old(self).num_blocks(),
            forall|j: int| 0 <= j < carried@.len() ==> (#[trigger] carried@[j]).1.0 < old(self).next_value,
        ensures
            final(self).wf(),
            final(self).function.blocks@.len() == old(self).function.blocks@.len(),
            forall|b: int| 0 <= b < old(self).num_blocks() && b != header.0 ==> #[trigger] final(self).function.blocks@[b]
                == old(self).function.blocks@[b],
            final(self).function.blocks@[header.0 as int].id == old(self).function.blocks@[header.0 as int].id,
            final(self).function.blocks@[header.0 as int].terminator == old(self).function.blocks@[header.0 as int].terminator,
            ({
                let oi = old(self).function.blocks@[header.0 as int].instructions@;
                let ni = final(self).function.blocks@[header.0 as int].instructions@;
                &&& ni.len() == oi.len()
                &&& forall|k: int| 0 <= k < oi.len() ==> {
                    &&& (#[trigger] oi[k]) is Eval ==> ni[k] == oi[k]
                    &&& oi[k] is Phi ==> ni[k] is Phi && instr_def(ni[k]) == instr_def(oi[k])
                        && ni[k]->Phi_sources@ == oi[k]->Phi_sources@ + closing_sources(carried@,
                            |x: Seq<char>| old(self).local(x), oi[k]->Phi_dest, backedge_block)
                }
            }),
            forall|x: Seq<char>| #[trigger] final(self).local(x) == rebind_result(carried@, x, old(self).local(x)),
            final(self).function.entry == old(self).function.entry,
            final(self).next_value == old(self).next_value,
            final(self).value_types == old(self).value_types,
            final(self).value_defs == old(self).value_defs,
            forall|v: MirValueId| final(self).type_of(v) == old(self).type_of(v) && final(self).def_of(v) == old(self).def_of(v),
            final(self).loop_stack == old(self).loop_stack,
            final(self).same_context(old(self)),
    {
        let ghost h = header.0 as int;
        let ghost oi = old(self).function.blocks@[h].instructions@;
        let ghost lf = |x: Seq<char>| old(self).local(x);
        let mut j: usize = 0;
        while j < carried.len()
            invariant
                j <= carried@.len(),
                h == header.0,
                h < old(self).num_blocks(),
                old(self).wf(),
                self.wf(),
                oi == old(self).function.blocks@[h].instructions@,
                lf == |x: Seq<char>| old(self).local(x),
                forall|j: int| 0 <= j < carried@.len() ==> (#[trigger] carried@[j]).1.0 < old(self).next_value,
                self.function.blocks@.len() == old(self).function.blocks@.len(),
                forall|b: int| 0 <= b < old(self).num_blocks() && b != h ==> #[trigger] self.function.blocks@[b]
                    == old(self).function.blocks@[b],
                self.function.blocks@[h].id == old(self).function.blocks@[h].id,
                self.function.blocks@[h].terminator == old(self).function.blocks@[h].terminator,
                self.function.blocks@[h].instructions@.len() == oi.len(),
                forall|k: int| 0 <= k < oi.len() ==> {
                    &&& (#[trigger] oi[k]) is Eval ==> self.function.blocks@[h].instructions@[k] == oi[k]
                    &&& oi[k] is Phi ==> self.function.blocks@[h].instructions@[k] is Phi
                        && instr_def(self.function.blocks@[h].instructions@[k]) == instr_def(oi[k])
                        && self.function.blocks@[h].instructions@[k]->Phi_sources@ == oi[k]->Phi_sources@
                            + closing_sources(carried@.take(j as int), lf, oi[k]->Phi_dest, backedge_block)
                },
                forall|x: Seq<char>| #[trigger] self.local(x) == rebind_result(carried@.take(j as int), x, old(self).local(x)),
                self.function.entry == old(self).function.entry,
                self.next_value == old(self).next_value,
                self.value_types == old(self).value_types,
                self.value_defs == old(self).value_defs,
                forall|v: MirValueId| self.type_of(v) == old(self).type_of(v) && self.def_of(v) == old(self).def_of(v),
                self.loop_stack == old(self).loop_stack,
                self.same_context(old(self)),
            decreases carried.len() - j,
        {
            let ghost pre = *self;
            let ghost cj = carried@.take(j as int);
            let ghost cj1 = carried@.take(j + 1);
            proof {
                assert(cj1.drop_last() =~= cj);
                assert(cj1.last() == carried@[j as int]);
            }
            let name = &carried[j].0;
            let phi = carried[j].1;
            let source = match self.get_local(name.as_str()) {
                Some(v) => v,
                None => phi,
            };
            let n = self.function.blocks[header.0].instructions.len();
            let mut k: usize = 0;
            let mut found = false;
            while k < n
                invariant_except_break
                    !found,
                invariant
                    k <= n,
                    n == oi.len(),
                    *self == pre,
                    h == header.0,
                    h < pre.function.blocks@.len(),
                    pre.function.blocks@[h].instructions@.len() == n,
                    forall|k2: int| 0 <= k2 < k ==> !((#[trigger] pre.function.blocks@[h].instructions@[k2]) is Phi
                        && instr_def(pre.function.blocks@[h].instructions@[k2]).0 == phi.0),
                ensures
                    found ==> k < n && pre.function.blocks@[h].instructions@[k as int] is Phi
                        && instr_def(pre.function.blocks@[h].instructions@[k as int]).0 == phi.0,
                    !found ==> k == n,
                decreases n - k,
            {
                let hit = match &self.function.blocks[header.0].instructions[k] {
                    MirInstr::Phi { dest, .. } => dest.0 == phi.0,
                    MirInstr::Eval { .. } => false,
                };
                if hit {
                    found = true;
                    break;
                }
                k = k + 1;
            }
            if found {
                match &mut self.function.blocks[header.0].instructions[k] {
                    MirInstr::Phi { sources, .. } => {
                        sources.push((backedge_block, source));
                    },
                    MirInstr::Eval { .. } => {},
                }
                proof {
                    lemma_phi_source_added(pre, *self, h, k as int, (backedge_block, source));
                }
            }
            let ghost mid = *self;
            self.insert_local(name.clone(), phi);
            proof {
                let pi = pre.function.blocks@[h].instructions@;
                let si = self.function.blocks@[h].instructions@;
                assert(source == match rebind_result(cj, carried@[j as int].0@, lf(carried@[j as int].0@)) {
                    Some(v) => v,
                    None => phi,
                });
                assert forall|k2: int| 0 <= k2 < oi.len() implies {
                    &&& (#[trigger] oi[k2]) is Eval ==> si[k2] == oi[k2]
                    &&& oi[k2] is Phi ==> si[k2] is Phi && instr_def(si[k2]) == instr_def(oi[k2])
                        && si[k2]->Phi_sources@ == oi[k2]->Phi_sources@
                            + closing_sources(cj1, lf, oi[k2]->Phi_dest, backedge_block)
                } by {
                    assert(si[k2] == mid.function.blocks@[h].instructions@[k2]);
                    if oi[k2] is Phi {
                        let d = oi[k2]->Phi_dest;
                        assert(instr_def(oi[k2]).0 == d.0);
                        if found && k2 == k as int {
                            assert(d == phi);
                            assert(closing_sources(cj1, lf, d, backedge_block)
                                == closing_sources(cj, lf, d, backedge_block).push((backedge_block, source)));
                            assert(oi[k2]->Phi_sources@ + closing_sources(cj1, lf, d, backedge_block)
                                =~= (oi[k2]->Phi_sources@ + closing_sources(cj, lf, d, backedge_block)).push((backedge_block, source)));
                        } else {
                            if d == phi {
                                if found {
                                    assert(valid_pos(pre.function, h, k2) && valid_pos(pre.function, h, k as int));
                                    assert(def_at(pre.function, h, k2).0 != def_at(pre.function, h, k as int).0);
                                } else {
                                    assert(!(pi[k2] is Phi && instr_def(pi[k2]).0 == phi.0));
                                }
                            }
                            assert(closing_sources(cj1, lf, d, backedge_block) == closing_sources(cj, lf, d, backedge_block));
                        }
                    }
                }
                assert forall|x: Seq<char>| #[trigger] self.local(x) == rebind_result(cj1, x, old(self).local(x)) by {
                    assert(mid.local(x) == pre.local(x));
                }
                assert forall|v: MirValueId| self.type_of(v) == old(self).type_of(v) && self.def_of(v) == old(self).def_of(v) by {
                    assert(mid.def_of(v) == pre.def_of(v));
                }
            }
            j = j + 1;
        }
        proof {
            assert(carried@.take(carried@.len() as int) =~= carried@);
        }
    }

    /// The value that defines `id`, when an ordinary instruction defines it.
    pub fn value_def(&self, id: MirValueId) -> (r: Option<&MirValue>)
        requires
            self.wf(),
        ensures
            match r {
                Some(v) => self.def_of(id) == Some(*v),
                None => self.def_of(id) is None,
            },
    {
        if id.0 >= self.value_defs.len() {
            return None;
        }
        match self.value_defs[id.0] {
            Some((b, k)) => {
                proof {
                    assert(valid_pos(self.function, b as int, k as int));
                }
                match &self.function.blocks[b].instructions[k] {
                    MirInstr::Eval { value, .. } => Some(value),
                    MirInstr::Phi { .. } => None,
                }
            },
            None => None,
        }
    }

    /// Whether a returned value is an error variant: an enum variant without
    /// payload, looking through casts, assignments and local bindings.
    pub open spec fn is_error_variant(&self, id: MirValueId, depth: nat) -> bool
        decreases 17 - depth,
    {
        if depth > 16 {
            false
        } else {
            match self.def_of(id) {
                Some(MirValue::EnumVariant { payload, .. }) => payload@.len() == 0,
                Some(MirValue::Cast { value, .. }) => self.is_error_variant(value, depth + 1),
                Some(MirValue::Assign { value, .. }) => self.is_error_variant(value, depth + 1),
                Some(MirValue::LocalSet { value, .. }) => self.is_error_variant(value, depth + 1),
                _ => false,
            }
        }
    }

    /// Whether the value `value_id` returns is an error variant, looking at
    /// most 16 definitions deep.
    pub fn return_value_is_error_variant(&self, value_id: MirValueId, depth: usize) -> (r: bool)
        requires
            self.wf(),
        ensures
            r == self.is_error_variant(value_id, depth as nat),
        decreases 17 - depth,
    {
        if depth > 16 {
            return false;
        }
        match self.value_def(value_id) {
            Some(MirValue::EnumVariant { payload, .. }) => payload.len() == 0,
            Some(MirValue::Cast { value, .. }) => self.return_value_is_error_variant(*value, depth + 1),
            Some(MirValue::Assign { value, .. }) => self.return_value_is_error_variant(*value, depth + 1),
            Some(MirValue::LocalSet { value, .. }) => self.return_value_is_error_variant(*value, depth + 1),
            _ => false,
        }
    }

    /// The value that a definition passes through unchanged for field,
    /// index and slice access: the operand of a cast, an assignment, a local
    /// binding or a dereference.
    pub open spec fn passthrough_of(&self, id: MirValueId) -> Option<MirValueId> {
        match self.def_of(id) {
            Some(MirValue::Cast { value, .. }) => Some(value),
            Some(MirValue::Assign { value, .. }) => Some(value),
            Some(MirValue::LocalSet { value, .. }) => Some(value),
            Some(MirValue::DerefAccess { base }) => Some(base),
            _ => None,
        }
    }

    /// The value an access through `base_value` passes on to.
    pub fn next_passthrough_access_base(&self, base_value: MirValueId) -> (r: Option<MirValueId>)
        requires
            self.wf(),
        ensures
            r == self.passthrough_of(base_value),
    {
        match self.value_def(base_value) {
            Some(MirValue::Cast { value, .. }) => Some(*value),
            Some(MirValue::Assign { value, .. }) => Some(*value),
            Some(MirValue::LocalSet { value, .. }) => Some(*value),
            Some(MirValue::DerefAccess { base }) => Some(*base),
            _ => None,
        }
    }

    /// Whether `value_id` is recorded as a byte slice.
    pub fn value_type_is_bytes_slice(&self, value_id: MirValueId) -> (r: bool)
        ensures
            r == (self.type_of(value_id) == Some(MirValueType::BytesSlice)),
    {
        match self.value_type(value_id) {
            Some(MirValueType::BytesSlice) => true,
            _ => false,
        }
    }

    /// Whether the function's declared return type can fail (has a `!`).
    pub fn function_returns_errorable(&self) -> (r: bool)
        ensures
            r == (self.function.return_type matches Some(h) && h@.contains('!')),
    {
        match &self.function.return_type {
            Some(hint) => {
                let v = chars_of(hint.as_str());
                match find_char(&v, '!') {
                    Some(i) => {
                        assert(v@[i as int] == '!');
                        true
                    },
                    None => false,
                }
            },
            None => false,
        }
    }

    /// Emits a compile-time value into `block`: a literal with its own type, a
    /// type name as a type literal, or a function name as a function pointer.
    pub fn emit_comptime_value(&mut self, block: MirBlockId, value: ComptimeValue) -> (r: MirValueId)
        requires
            old(self).wf(),
            block.0 < old(self).num_blocks(),
            old(self).next_value < usize::MAX,
        ensures
            final(self).wf(),
            r.0 == old(self).next_value,
            final(self).next_value == old(self).next_value + 1,
            extended(old(self).function.blocks@, final(self).function.blocks@, block.0 as int, 1),
            ({
                let ins = final(self).function.blocks@[block.0 as int].instructions@[
                    old(self).function.blocks@[block.0 as int].instructions@.len() as int];
                match value {
                    ComptimeValue::Literal(lit) => ins == MirInstr::Eval { dest: r, value: MirValue::Literal(lit),
                        ty: spec_literal_type(lit@) },
                    ComptimeValue::Type(name) => ins == MirInstr::Eval { dest: r, value: MirValue::TypeLiteral(name),
                        ty: MirValueType::Type },
                    ComptimeValue::Function(name) => ins == MirInstr::Eval { dest: r, value: MirValue::Ident(name),
                        ty: MirValueType::FunctionPointer },
                }
            }),
            final(self).function.entry == old(self).function.entry,
            forall|v: MirValueId| v.0 < old(self).next_value ==> final(self).type_of(v) == old(self).type_of(v)
                && final(self).def_of(v) == old(self).def_of(v),
            final(self).locals == old(self).locals,
            final(self).loop_stack == old(self).loop_stack,
            final(self).same_context(old(self)),
    {
        let (v, ty) = match value {
            ComptimeValue::Literal(lit) => {
                let ty = literal_type(&lit);
                (MirValue::Literal(lit), ty)
            },
            ComptimeValue::Type(name) => (MirValue::TypeLiteral(name), MirValueType::Type),
            ComptimeValue::Function(name) => (MirValue::Ident(name), MirValueType::FunctionPointer),
        };
        let r = self.push_eval(block, v, ty);
        proof {
            let ob = old(self).function.blocks@;
            let nb = self.function.blocks@;
            assert(nb[block.0 as int].instructions@.take(ob[block.0 as int].instructions@.len() as int)
                =~= ob[block.0 as int].instructions@);
        }
        r
    }

    /// Emits `value != 0` for a value of type `value_ty`, comparing with the
    /// zero of that type; returns the boolean result.
    pub fn emit_nonzero_check(&mut self, block: MirBlockId, value: MirValueId, value_ty: &MirValueType) -> (r: MirValueId)
        requires
            old(self).wf(),
            block.0 < old(self).num_blocks(),
            old(self).next_value + 2 < usize::MAX,
        ensures
            final(self).wf(),
            r.0 == old(self).next_value + 1,
            final(self).next_value == old(self).next_value + 2,
            extended(old(self).function.blocks@, final(self).function.blocks@, block.0 as int, 2),
            ({
                let n = old(self).function.blocks@[block.0 as int].instructions@.len() as int;
                let ins = final(self).function.blocks@[block.0 as int].instructions@;
                &&& literal_eval(ins[n], MirValueId(old(self).next_value), zero_literal_for(*value_ty), *value_ty)
                &&& ins[n + 1] == MirInstr::Eval { dest: r, value: MirValue::Binary { op: BinaryOp::Ne, left: value,
                    right: MirValueId(old(self).next_value) }, ty: MirValueType::Bool }
            }),
            final(self).type_of(r) == Some(MirValueType::Bool),
            final(self).function.entry == old(self).function.entry,
            forall|v: MirValueId| v.0 < old(self).next_value ==> final(self).type_of(v) == old(self).type_of(v)
                && final(self).def_of(v) == old(self).def_of(v),
            final(self).locals == old(self).locals,
            final(self).loop_stack == old(self).loop_stack,
            final(self).same_context(old(self)),
    {
        let zero_literal = match value_ty {
            MirValueType::Float { .. } => HirLiteral::Float(string_from_str("0.0")),
            MirValueType::Bool => HirLiteral::Bool(false),
            _ => HirLiteral::Integer(string_from_str("0")),
        };
        proof {
            reveal_strlit("0.0");
            reveal_strlit("0");
            assert("0.0"@ =~= seq!['0', '.', '0']);
            assert("0"@ =~= seq!['0']);
            assert(zero_literal@ == zero_literal_for(*value_ty));
        }
        let ghost s0 = self.function.blocks@;
        let zero = self.push_eval(block, MirValue::Literal(zero_literal), *value_ty);
        let ghost s1 = self.function.blocks@;
        let r = self.push_eval(block, MirValue::Binary { op: BinaryOp::Ne, left: value, right: zero }, MirValueType::Bool);
        proof {
            lemma_appended_twice(s0, s1, self.function.blocks@, block.0 as int,
                MirInstr::Eval { dest: zero, value: MirValue::Literal(zero_literal), ty: *value_ty },
                MirInstr::Eval { dest: r, value: MirValue::Binary { op: BinaryOp::Ne, left: value, right: zero }, ty: MirValueType::Bool });
        }
        r
    }

    /// Emits `value == rhs`, with `rhs` as a signed 32-bit integer literal;
    /// returns the boolean result.
    pub fn emit_int_equality_check(&mut self, block: MirBlockId, value: MirValueId, rhs: i64) -> (r: MirValueId)
        requires
            old(self).wf(),
            block.0 < old(self).num_blocks(),
            old(self).next_value + 2 < usize::MAX,
        ensures
            final(self).wf(),
            r.0 == old(self).next_value + 1,
            final(self).next_value == old(self).next_value + 2,
            extended(old(self).function.blocks@, final(self).function.blocks@, block.0 as int, 2),
            ({
                let n = old(self).function.blocks@[block.0 as int].instructions@.len() as int;
                let ins = final(self).function.blocks@[block.0 as int].instructions@;
                &&& literal_eval(ins[n], MirValueId(old(self).next_value), HirLiteralView::Integer(spec_int_text(rhs as int)),
                    MirValueType::Int { signed: true, bits: 32 })
                &&& ins[n + 1] == MirInstr::Eval { dest: r, value: MirValue::Binary { op: BinaryOp::Eq, left: value,
                    right: MirValueId(old(self).next_value) }, ty: MirValueType::Bool }
            }),
            final(self).type_of(r) == Some(MirValueType::Bool),
            final(self).function.entry == old(self).function.entry,
            forall|v: MirValueId| v.0 < old(self).next_value ==> final(self).type_of(v) == old(self).type_of(v)
                && final(self).def_of(v) == old(self).def_of(v),
            final(self).locals == old(self).locals,
            final(self).loop_stack == old(self).loop_stack,
            final(self).same_context(old(self)),
    {
        let lit = HirLiteral::Integer(i64_to_string(rhs));
        let ty = MirValueType::Int { signed: true, bits: 32 };
        let ghost s0 = self.function.blocks@;
        let rhs_value = self.push_eval(block, MirValue::Literal(lit), ty);
        let ghost s1 = self.function.blocks@;
        let r = self.push_eval(block, MirValue::Binary { op: BinaryOp::Eq, left: value, right: rhs_value }, MirValueType::Bool);
        proof {
            lemma_appended_twice(s0, s1, self.function.blocks@, block.0 as int,
                MirInstr::Eval { dest: rhs_value, value: MirValue::Literal(lit), ty },
                MirInstr::Eval { dest: r, value: MirValue::Binary { op: BinaryOp::Eq, left: value, right: rhs_value }, ty: MirValueType::Bool });
        }
        r
    }

    /// The integer that value `id` is a literal of, when it is an integer
    /// literal whose text denotes a 64-bit signed number.
    pub open spec fn literal_int_of(&self, id: MirValueId) -> Option<int> {
        match self.def_of(id) {
            Some(MirValue::Literal(HirLiteral::Integer(text))) => spec_literal_int(text@),
            _ => None,
        }
    }

    /// The value of `value_id` when it is an integer literal.
    pub fn literal_int_value(&self, value_id: MirValueId) -> (r: Option<i64>)
        requires
            self.wf(),
        ensures
            match self.literal_int_of(value_id) {
                Some(n) => r == Some(n as i64),
                None => r is None,
            },
    {
        match self.value_def(value_id) {
            Some(MirValue::Literal(HirLiteral::Integer(text))) => {
                let v = chars_of(text.as_str());
                let t = remove_underscores(&v);
                proof {
                    reveal_strlit("0x");
                    reveal_strlit("0b");
                    reveal_strlit("0o");
                    assert("0x"@ =~= seq!['0', 'x']);
                    assert("0b"@ =~= seq!['0', 'b']);
                    assert("0o"@ =~= seq!['0', 'o']);
                }
                if starts_with_str(&t, "0x") {
                    let rest = subvec(&t, 2, t.len());
                    assert(rest@ =~= t@.skip(2));
                    parse_i64_radix(&rest, 16)
                } else if starts_with_str(&t, "0b") {
                    let rest = subvec(&t, 2, t.len());
                    assert(rest@ =~= t@.skip(2));
                    parse_i64_radix(&rest, 2)
                } else if starts_with_str(&t, "0o") {
                    let rest = subvec(&t, 2, t.len());
                    assert(rest@ =~= t@.skip(2));
                    parse_i64_radix(&rest, 8)
                } else {
                    parse_i64(&t)
                }
            },
            _ => None,
        }
    }

    /// The sequence of element values recorded for aggregate value `id`.
    pub open spec fn aggregate_of(&self, id: MirValueId) -> Option<Seq<MirValueId>> {
        match id_find(self.aggregate_sequences@, id) {
            Some(v) => Some(v@),
            None => None,
        }
    }

    /// The fields recorded for struct value `id`.
    pub open spec fn fields_of(&self, id: MirValueId) -> Option<Seq<(String, MirValueId)>> {
        match id_find(self.struct_fields@, id) {
            Some(v) => Some(v@),
            None => None,
        }
    }

    fn find_aggregate(&self, id: MirValueId) -> (r: Option<usize>)
        ensures
            match r {
                Some(i) => i < self.aggregate_sequences@.len() && id_find(self.aggregate_sequences@, id)
                    == Some(self.aggregate_sequences@[i as int].1) && self.aggregate_sequences@[i as int].0 == id
                    && forall|j: int| 0 <= j < i ==> (#[trigger] self.aggregate_sequences@[j]).0 != id,
                None => id_find(self.aggregate_sequences@, id) is None
                    && forall|j: int| 0 <= j < self.aggregate_sequences@.len() ==> (#[trigger] self.aggregate_sequences@[j]).0 != id,
            },
    {
        let mut i: usize = 0;
        while i < self.aggregate_sequences.len()
            invariant
                i <= self.aggregate_sequences@.len(),
                forall|j: int| 0 <= j < i ==> (#[trigger] self.aggregate_sequences@[j]).0 != id,
            decreases self.aggregate_sequences.len() - i,
        {
            if self.aggregate_sequences[i].0.0 == id.0 {
                proof { lemma_id_find_at(self.aggregate_sequences@, id, i as int); }
                return Some(i);
            }
            i = i + 1;
        }
        proof { lemma_id_find_none(self.aggregate_sequences@, id); }
        None
    }

    fn find_struct_fields(&self, id: MirValueId) -> (r: Option<usize>)
        ensures
            match r {
                Some(i) => i < self.struct_fields@.len() && id_find(self.struct_fields@, id)
                    == Some(self.struct_fields@[i as int].1) && self.struct_fields@[i as int].0 == id
                    && forall|j: int| 0 <= j < i ==> (#[trigger] self.struct_fields@[j]).0 != id,
                None => id_find(self.struct_fields@, id) is None
                    && forall|j: int| 0 <= j < self.struct_fields@.len() ==> (#[trigger] self.struct_fields@[j]).0 != id,
            },
    {
        let mut i: usize = 0;
        while i < self.struct_fields.len()
            invariant
                i <= self.struct_fields@.len(),
                forall|j: int| 0 <= j < i ==> (#[trigger] self.struct_fields@[j]).0 != id,
            decreases self.struct_fields.len() - i,
        {
            if self.struct_fields[i].0.0 == id.0 {
                proof { lemma_id_find_at(self.struct_fields@, id, i as int); }
                return Some(i);
            }
            i = i + 1;
        }
        proof { lemma_id_find_none(self.struct_fields@, id); }
        None
    }

    /// The type that reading `field` through `base_value` yields: `u64` for
    /// the `len` of a byte slice, the recorded type of a recorded struct
    /// field, otherwise what the value it passes through yields, looking at
    /// most 16 definitions deep; `Unknown` when nothing is known.
    pub open spec fn field_type(&self, base: MirValueId, field: Seq<char>, depth: nat) -> MirValueType
        decreases 17 - depth,
    {
        if depth > 16 {
            MirValueType::Unknown
        } else if field == seq!['l', 'e', 'n'] && self.type_of(base) == Some(MirValueType::BytesSlice) {
            MirValueType::Int { signed: false, bits: 64 }
        } else if self.fields_of(base) is Some && assoc_find(self.fields_of(base).unwrap(), field) is Some {
            type_or_unknown(self.type_of(assoc_find(self.fields_of(base).unwrap(), field).unwrap()))
        } else {
            match self.passthrough_of(base) {
                Some(next) => self.field_type(next, field, depth + 1),
                None => MirValueType::Unknown,
            }
        }
    }

    /// The type of field `field` read through `base_value`.
    pub fn infer_field_access_result_type(&self, base_value: MirValueId, field: &str, depth: usize) -> (r: MirValueType)
        requires
            self.wf(),
        ensures
            r == self.field_type(base_value, field@, depth as nat),
        decreases 17 - depth,
    {
        if depth > 16 {
            return MirValueType::Unknown;
        }
        proof {
            reveal_strlit("len");
            assert("len"@ =~= seq!['l', 'e', 'n']);
        }
        let fv = chars_of(field);
        if eq_str(&fv, "len") && self.value_type_is_bytes_slice(base_value) {
            return MirValueType::Int { signed: false, bits: 64 };
        }
        match self.find_struct_fields(base_value) {
            Some(i) => {
                let fields = &self.struct_fields[i].1;
                assert(self.fields_of(base_value) == Some(fields@));
                let mut j: usize = 0;
                while j < fields.len()
                    invariant
                        j <= fields@.len(),
                        depth <= 16,
                        self.fields_of(base_value) == Some(fields@),
                        !(field@ == seq!['l', 'e', 'n'] && self.type_of(base_value) == Some(MirValueType::BytesSlice)),
                        forall|k: int| 0 <= k < j ==> (#[trigger] fields@[k]).0@ != field@,
                    decreases fields.len() - j,
                {
                    if string_eq_str(&fields[j].0, field) {
                        proof {
                            lemma_assoc_find_at(fields@, field@, j as int);
                        }
                        let v = fields[j].1;
                        return match self.value_type(v) {
                            Some(t) => t,
                            None => MirValueType::Unknown,
                        };
                    }
                    j = j + 1;
                }
                proof { lemma_assoc_find_none(fields@, field@); }
            },
            None => {},
        }
        match self.next_passthrough_access_base(base_value) {
            Some(next) => self.infer_field_access_result_type(next, field, depth + 1),
            None => MirValueType::Unknown,
        }
    }

    /// The type that indexing through `base` yields: the recorded type of the
    /// first element of a recorded non-empty aggregate, `u8` for a byte
    /// slice, otherwise what the value it passes through yields, looking at
    /// most 16 definitions deep; `Unknown` when nothing is known.
    pub open spec fn index_type(&self, base: MirValueId, depth: nat) -> MirValueType
        decreases 17 - depth,
    {
        if depth > 16 {
            MirValueType::Unknown
        } else if self.aggregate_of(base) is Some && self.aggregate_of(base).unwrap().len() > 0 {
            type_or_unknown(self.type_of(self.aggregate_of(base).unwrap()[0]))
        } else if self.type_of(base) == Some(MirValueType::BytesSlice) {
            MirValueType::Int { signed: false, bits: 8 }
        } else {
            match self.passthrough_of(base) {
                Some(next) => self.index_type(next, depth + 1),
                None => MirValueType::Unknown,
            }
        }
    }

    /// The type of an element read by indexing through `base_value`.
    pub fn infer_index_result_type(&self, base_value: MirValueId, depth: usize) -> (r: MirValueType)
        requires
            self.wf(),
        ensures
            r == self.index_type(base_value, depth as nat),
        decreases 17 - depth,
    {
        if depth > 16 {
            return MirValueType::Unknown;
        }
        match self.find_aggregate(base_value) {
            Some(i) => {
                if self.aggregate_sequences[i].1.len() > 0 {
                    let first = self.aggregate_sequences[i].1[0];
                    return match self.value_type(first) {
                        Some(t) => t,
                        None => MirValueType::Unknown,
                    };
                }
            },
            None => {},
        }
        if self.value_type_is_bytes_slice(base_value) {
            return MirValueType::Int { signed: false, bits: 8 };
        }
        match self.next_passthrough_access_base(base_value) {
            Some(next) => self.infer_index_result_type(next, depth + 1),
            None => MirValueType::Unknown,
        }
    }

    /// The type that slicing through `base` yields: a byte slice for a byte
    /// slice, otherwise what the value it passes through yields, looking at
    /// most 16 definitions deep; `Unknown` when nothing is known.
    pub open spec fn slice_type(&self, base: MirValueId, depth: nat) -> MirValueType
        decreases 17 - depth,
    {
        if depth > 16 {
            MirValueType::Unknown
        } else if self.type_of(base) == Some(MirValueType::BytesSlice) {
            MirValueType::BytesSlice
        } else {
            match self.passthrough_of(base) {
                Some(next) => self.slice_type(next, depth + 1),
                None => MirValueType::Unknown,
            }
        }
    }

    /// The type of a slice taken through `base_value`.
    pub fn infer_slice_result_type(&self, base_value: MirValueId, depth: usize) -> (r: MirValueType)
        requires
            self.wf(),
        ensures
            r == self.slice_type(base_value, depth as nat),
        decreases 17 - depth,
    {
        if depth > 16 {
            return MirValueType::Unknown;
        }
        if self.value_type_is_bytes_slice(base_value) {
            return MirValueType::BytesSlice;
        }
        match self.next_passthrough_access_base(base_value) {
            Some(next) => self.infer_slice_result_type(next, depth + 1),
            None => MirValueType::Unknown,
        }
    }

    /// Whether `id` is aggregate-like: it has recorded elements or fields, it
    /// is a struct literal or an enum variant with payload, or it passes
    /// through a cast, assignment or local binding to such a value, looking
    /// at most 16 definitions deep.
    pub open spec fn is_aggregate_like(&self, id: MirValueId, depth: nat) -> bool
        decreases 17 - depth,
    {
        if depth > 16 {
            false
        } else if self.aggregate_of(id) is Some || self.fields_of(id) is Some {
            true
        } else {
            match self.def_of(id) {
                Some(MirValue::StructLiteral { .. }) => true,
                Some(MirValue::EnumVariant { payload, .. }) => payload@.len() > 0,
                Some(MirValue::Cast { value, .. }) => self.is_aggregate_like(value, depth + 1),
                Some(MirValue::Assign { value, .. }) => self.is_aggregate_like(value, depth + 1),
                Some(MirValue::LocalSet { value, .. }) => self.is_aggregate_like(value, depth + 1),
                _ => false,
            }
        }
    }

    /// Whether `value_id` is aggregate-like.
    pub fn value_is_aggregate_like(&self, value_id: MirValueId, depth: usize) -> (r: bool)
        requires
            self.wf(),
        ensures
            r == self.is_aggregate_like(value_id, depth as nat),
        decreases 17 - depth,
    {
        if depth > 16 {
            return false;
        }
        if self.find_aggregate(value_id).is_some() || self.find_struct_fields(value_id).is_some() {
            return true;
        }
        match self.value_def(value_id) {
            Some(MirValue::StructLiteral { .. }) => true,
            Some(MirValue::EnumVariant { payload, .. }) => payload.len() > 0,
            Some(MirValue::Cast { value, .. }) => self.value_is_aggregate_like(*value, depth + 1),
            Some(MirValue::Assign { value, .. }) => self.value_is_aggregate_like(*value, depth + 1),
            Some(MirValue::LocalSet { value, .. }) => self.value_is_aggregate_like(*value, depth + 1),
            _ => false,
        }
    }

    /// Whether a local whose address is taken should be tracked by value:
    /// only when it is not aggregate-like.
    pub fn should_track_address_taken_local(&self, value_id: MirValueId) -> (r: bool)
        requires
            self.wf(),
        ensures
            r == !self.is_aggregate_like(value_id, 0),
    {
        !self.value_is_aggregate_like(value_id, 0)
    }

    /// The recorded type of the first element of aggregate `value_id`, or
    /// `Unknown`.
    pub fn inferred_sequence_element_type(&self, value_id: MirValueId) -> (r: MirValueType)
        ensures
            r == match self.aggregate_of(value_id) {
                Some(seq) => if seq.len() > 0 { type_or_unknown(self.type_of(seq[0])) } else { MirValueType::Unknown },
                None => MirValueType::Unknown,
            },
    {
        match self.find_aggregate(value_id) {
            Some(i) => {
                if self.aggregate_sequences[i].1.len() > 0 {
                    match self.value_type(self.aggregate_sequences[i].1[0]) {
                        Some(t) => t,
                        None => MirValueType::Unknown,
                    }
                } else {
                    MirValueType::Unknown
                }
            },
            None => MirValueType::Unknown,
        }
    }

    /// Records `elements` as the element sequence of aggregate `id`,
    /// replacing what was recorded for it.
    fn set_aggregate(&mut self, id: MirValueId, elements: Vec<MirValueId>)
        ensures
            forall|x: MirValueId| #[trigger] final(self).aggregate_of(x) == if x == id { Some(elements@) } else { old(self).aggregate_of(x) },
            forall|x: MirValueId| #[trigger] final(self).fields_of(x) == old(self).fields_of(x),
            final(self).function == old(self).function,
            final(self).next_value == old(self).next_value,
            final(self).value_types == old(self).value_types,
            final(self).value_defs == old(self).value_defs,
            final(self).locals == old(self).locals,
            final(self).loop_stack == old(self).loop_stack,
            final(self).same_module_tables(old(self)),
            final(self).diagnostics == old(self).diagnostics,
    {
        let ghost s0 = self.aggregate_sequences@;
        match self.find_aggregate(id) {
            Some(i) => {
                self.aggregate_sequences.set(i, (id, elements));
                proof {
                    lemma_id_find_update(s0, i as int, elements);
                }
            },
            None => {
                self.aggregate_sequences.push((id, elements));
                proof {
                    lemma_id_find_push(s0, id, elements);
                }
            },
        }
    }

    /// Forgets the element sequence recorded for `id`.
    fn remove_aggregate(&mut self, id: MirValueId)
        ensures
            forall|x: MirValueId| #[trigger] final(self).aggregate_of(x) == if x == id { None } else { old(self).aggregate_of(x) },
            final(self).struct_fields == old(self).struct_fields,
            final(self).function == old(self).function,
            final(self).next_value == old(self).next_value,
            final(self).value_types == old(self).value_types,
            final(self).value_defs == old(self).value_defs,
            final(self).locals == old(self).locals,
            final(self).loop_stack == old(self).loop_stack,
            final(self).same_module_tables(old(self)),
            final(self).diagnostics == old(self).diagnostics,
    {
        loop
            invariant
                forall|x: MirValueId| x != id ==> #[trigger] self.aggregate_of(x) == old(self).aggregate_of(x),
                self.struct_fields == old(self).struct_fields,
                self.function == old(self).function,
                self.next_value == old(self).next_value,
                self.value_types == old(self).value_types,
                self.value_defs == old(self).value_defs,
                self.locals == old(self).locals,
                self.loop_stack == old(self).loop_stack,
                self.same_module_tables(old(self)),
                self.diagnostics == old(self).diagnostics,
            ensures
                forall|x: MirValueId| #[trigger] self.aggregate_of(x) == if x == id { None } else { old(self).aggregate_of(x) },
            decreases self.aggregate_sequences@.len(),
        {
            match self.find_aggregate(id) {
                Some(i) => {
                    let ghost s0 = self.aggregate_sequences@;
                    let ghost pre = *self;
                    self.aggregate_sequences.remove(i);
                    proof {
                        lemma_id_find_remove(s0, i as int);
                        assert(self.aggregate_sequences@ == s0.remove(i as int));
                        assert forall|x: MirValueId| x != id implies #[trigger] self.aggregate_of(x) == old(self).aggregate_of(x) by {
                            assert(id_find(s0.remove(i as int), x) == id_find(s0, x));
                            assert(pre.aggregate_of(x) == old(self).aggregate_of(x));
                        }
                    }
                },
                None => {
                    break;
                },
            }
        }
    }

    /// Forgets the fields recorded for `id`.
    fn remove_struct_fields(&mut self, id: MirValueId)
        ensures
            forall|x: MirValueId| #[trigger] final(self).fields_of(x) == if x == id { None } else { old(self).fields_of(x) },
            final(self).aggregate_sequences == old(self).aggregate_sequences,
            final(self).function == old(self).function,
            final(self).next_value == old(self).next_value,
            final(self).value_types == old(self).value_types,
            final(self).value_defs == old(self).value_defs,
            final(self).locals == old(self).locals,
            final(self).loop_stack == old(self).loop_stack,
            final(self).same_module_tables(old(self)),
            final(self).diagnostics == old(self).diagnostics,
    {
        loop
            invariant
                forall|x: MirValueId| x != id ==> #[trigger] self.fields_of(x) == old(self).fields_of(x),
                self.aggregate_sequences == old(self).aggregate_sequences,
                self.function == old(self).function,
                self.next_value == old(self).next_value,
                self.value_types == old(self).value_types,
                self.value_defs == old(self).value_defs,
                self.locals == old(self).locals,
                self.loop_stack == old(self).loop_stack,
                self.same_module_tables(old(self)),
                self.diagnostics == old(self).diagnostics,
            ensures
                forall|x: MirValueId| #[trigger] self.fields_of(x) == if x == id { None } else { old(self).fields_of(x) },
            decreases self.struct_fields@.len(),
        {
            match self.find_struct_fields(id) {
                Some(i) => {
                    let ghost s0 = self.struct_fields@;
                    let ghost pre = *self;
                    self.struct_fields.remove(i);
                    proof {
                        lemma_id_find_remove(s0, i as int);
                        assert(self.struct_fields@ == s0.remove(i as int));
                        assert forall|x: MirValueId| x != id implies #[trigger] self.fields_of(x) == old(self).fields_of(x) by {
                            assert(id_find(s0.remove(i as int), x) == id_find(s0, x));
                            assert(pre.fields_of(x) == old(self).fields_of(x));
                        }
                    }
                },
                None => {
                    break;
                },
            }
        }
    }

    /// Forgets the elements and fields recorded for `value_id` and for the
    /// values it passes through by casts, assignments and local bindings,
    /// at most 16 definitions deep: its address was taken, so what was
    /// recorded of it may no longer hold.
    pub fn invalidate_address_taken_aggregate_view(&mut self, value_id: MirValueId, depth: usize)
        requires
            old(self).wf(),
        ensures
            final(self).wf(),
            forall|x: MirValueId| #[trigger] final(self).aggregate_of(x) == if invalidation_reaches(old(self).function,
                old(self).value_defs@, value_id, depth as nat, x) { None } else { old(self).aggregate_of(x) },
            forall|x: MirValueId| #[trigger] final(self).fields_of(x) == if invalidation_reaches(old(self).function,
                old(self).value_defs@, value_id, depth as nat, x) { None } else { old(self).fields_of(x) },
            final(self).function == old(self).function,
            final(self).next_value == old(self).next_value,
            final(self).value_types == old(self).value_types,
            final(self).value_defs == old(self).value_defs,
            final(self).locals == old(self).locals,
            final(self).loop_stack == old(self).loop_stack,
            final(self).same_module_tables(old(self)),
            final(self).diagnostics == old(self).diagnostics,
        decreases 17 - depth,
    {
        if depth > 16 {
            return;
        }
        self.remove_aggregate(value_id);
        let ghost after_first = *self;
        self.remove_struct_fields(value_id);
        proof {
            assert forall|x: MirValueId| #[trigger] self.aggregate_of(x) == if x == value_id { None } else { old(self).aggregate_of(x) } by {
                assert(after_first.aggregate_of(x) == if x == value_id { None } else { old(self).aggregate_of(x) });
            }
            assert forall|x: MirValueId| #[trigger] self.fields_of(x) == if x == value_id { None } else { old(self).fields_of(x) } by {
                assert(after_first.fields_of(x) == old(self).fields_of(x));
            }
        }
        let next = match self.value_def(value_id) {
            Some(MirValue::Cast { value, .. }) => Some(*value),
            Some(MirValue::Assign { value, .. }) => Some(*value),
            Some(MirValue::LocalSet { value, .. }) => Some(*value),
            _ => None,
        };
        match next {
            Some(next) => {
                let ghost mid = *self;
                self.invalidate_address_taken_aggregate_view(next, depth + 1);
                proof {
                    assert forall|x: MirValueId| #[trigger] self.aggregate_of(x) == if invalidation_reaches(old(self).function,
                        old(self).value_defs@, value_id, depth as nat, x) { None } else { old(self).aggregate_of(x) } by {
                        assert(mid.aggregate_of(x) == if x == value_id { None } else { old(self).aggregate_of(x) });
                        assert(self.aggregate_of(x) == if invalidation_reaches(mid.function, mid.value_defs@, next, depth as nat + 1, x) { None } else { mid.aggregate_of(x) });
                    }
                    assert forall|x: MirValueId| #[trigger] self.fields_of(x) == if invalidation_reaches(old(self).function,
                        old(self).value_defs@, value_id, depth as nat, x) { None } else { old(self).fields_of(x) } by {
                        assert(mid.fields_of(x) == if x == value_id { None } else { old(self).fields_of(x) });
                        assert(self.fields_of(x) == if invalidation_reaches(mid.function, mid.value_defs@, next, depth as nat + 1, x) { None } else { mid.fields_of(x) });
                    }
                }
            },
            None => {},
        }
    }

    /// The bounds, within a sequence of `sequence_len` elements, of a slice
    /// from `start` to `end`: a bound that is an integer literal counts from
    /// zero (negative ones as zero), a missing or non-literal start is zero,
    /// a missing or non-literal end is the length, an inclusive end counts
    /// one more, and both are clamped to the length; `None` when the start
    /// then lies after the end.
    pub open spec fn slice_bounds(&self, sequence_len: usize, start: Option<MirValueId>, end: Option<MirValueId>, inclusive: bool) -> Option<(usize, usize)> {
        let s: usize = match start {
            Some(v) => match self.literal_int_of(v) {
                Some(n) => nonnegative(n) as usize,
                None => 0,
            },
            None => 0,
        };
        let e0: usize = match end {
            Some(v) => match self.literal_int_of(v) {
                Some(n) => nonnegative(n) as usize,
                None => sequence_len,
            },
            None => sequence_len,
        };
        let e: usize = if inclusive { if e0 == usize::MAX { e0 } else { (e0 + 1) as usize } } else { e0 };
        let cs: usize = if s <= sequence_len { s } else { sequence_len };
        let ce: usize = if e <= sequence_len { e } else { sequence_len };
        if cs <= ce { Some((cs, ce)) } else { None }
    }

    /// The bounds of a slice of an aggregate with `sequence_len` elements.
    pub fn aggregate_slice_bounds(&self, sequence_len: usize, start: Option<MirValueId>, end: Option<MirValueId>, inclusive: bool) -> (r: Option<(usize, usize)>)
        requires
            self.wf(),
        ensures
            r == self.slice_bounds(sequence_len, start, end, inclusive),
    {
        let start_lit: i64 = match start {
            Some(v) => match self.literal_int_value(v) {
                Some(n) => n,
                None => 0,
            },
            None => 0,
        };
        let start_idx: usize = if start_lit >= 0 { start_lit as usize } else { 0 };
        let mut end_idx: usize = match end {
            Some(v) => match self.literal_int_value(v) {
                Some(n) => if n >= 0 { n as usize } else { 0 },
                None => sequence_len,
            },
            None => sequence_len,
        };
        if inclusive {
            end_idx = end_idx.saturating_add(1);
        }
        let clamped_start = if start_idx <= sequence_len { start_idx } else { sequence_len };
        let clamped_end = if end_idx <= sequence_len { end_idx } else { sequence_len };
        if clamped_start <= clamped_end {
            Some((clamped_start, clamped_end))
        } else {
            None
        }
    }

    /// Records, for slice `dest` of aggregate `base_value` from `start` to
    /// `end`, the elements of the base's recorded sequence between the
    /// slice's bounds; nothing is recorded when the base has no recorded
    /// sequence or the bounds are empty.
    pub fn track_aggregate_slice_view(&mut self, dest: MirValueId, base_value: MirValueId, start: Option<MirValueId>,
        end: Option<MirValueId>, inclusive: bool)
        requires
            old(self).wf(),
        ensures
            final(self).wf(),
            forall|x: MirValueId| #[trigger] final(self).aggregate_of(x) == match old(self).aggregate_of(base_value) {
                Some(seq) => match old(self).slice_bounds(seq.len() as usize, start, end, inclusive) {
                    Some((a, b)) => if x == dest { Some(seq.subrange(a as int, b as int)) } else { old(self).aggregate_of(x) },
                    None => old(self).aggregate_of(x),
                },
                None => old(self).aggregate_of(x),
            },
            forall|x: MirValueId| #[trigger] final(self).fields_of(x) == old(self).fields_of(x),
            final(self).function == old(self).function,
            final(self).next_value == old(self).next_value,
            final(self).value_types == old(self).value_types,
            final(self).value_defs == old(self).value_defs,
            final(self).locals == old(self).locals,
            final(self).loop_stack == old(self).loop_stack,
            final(self).same_module_tables(old(self)),
            final(self).diagnostics == old(self).diagnostics,
    {
        let i = match self.find_aggregate(base_value) {
            Some(i) => i,
            None => {
                return;
            },
        };
        let n = self.aggregate_sequences[i].1.len();
        let (a, b) = match self.aggregate_slice_bounds(n, start, end, inclusive) {
            Some(bounds) => bounds,
            None => {
                return;
            },
        };
        let mut elements: Vec<MirValueId> = Vec::new();
        let mut k = a;
        while k < b
            invariant
                a <= k <= b <= n,
                n == self.aggregate_sequences@[i as int].1@.len(),
                i < self.aggregate_sequences@.len(),
                elements@ == self.aggregate_sequences@[i as int].1@.subrange(a as int, k as int),
            decreases b - k,
        {
            elements.push(self.aggregate_sequences[i].1[k]);
            k = k + 1;
            assert(elements@ =~= self.aggregate_sequences@[i as int].1@.subrange(a as int, k as int));
        }
        self.set_aggregate(dest, elements);
    }

    /// The name of the function that `value` refers to.
    pub fn resolve_callee_function_name(&self, value: MirValueId, depth: usize) -> (r: Option<String>)
        requires
            self.wf(),
        ensures
            match r {
                Some(n) => callee_name_in(self.function, self.value_defs@, value, depth as nat) == Some(n@),
                None => callee_name_in(self.function, self.value_defs@, value, depth as nat) is None,
            },
        decreases 9 - depth,
    {
        if depth > 8 {
            return None;
        }
        match self.value_def(value) {
            Some(MirValue::Ident(name)) => Some(name.clone()),
            Some(MirValue::LocalSet { value, .. }) => self.resolve_callee_function_name(*value, depth + 1),
            Some(MirValue::Assign { value, .. }) => self.resolve_callee_function_name(*value, depth + 1),
            _ => None,
        }
    }

    /// The type that calling `callee` yields: the recorded return type of
    /// the named function it refers to (`Unknown` when none is recorded);
    /// for a parameter, the return type of its function type hint, else the
    /// parameter's recorded type; otherwise `Unknown`.
    pub open spec fn call_result_type(&self, callee: MirValueId, depth: nat) -> MirValueType {
        if depth > 8 {
            MirValueType::Unknown
        } else {
            match callee_name_in(self.function, self.value_defs@, callee, depth) {
                Some(name) => type_or_unknown(assoc_find(self.function_return_types@, name)),
                None => match self.def_of(callee) {
                    Some(MirValue::Param { index }) => {
                        let hint_ret = if index < self.current_param_type_hints@.len() {
                            match self.current_param_type_hints@[index as int] {
                                Some(h) => spec_parse_function_return_hint(h@),
                                None => None,
                            }
                        } else {
                            None
                        };
                        match hint_ret {
                            Some(t) => t,
                            None => type_or_unknown(self.type_of(callee)),
                        }
                    },
                    _ => MirValueType::Unknown,
                },
            }
        }
    }

    /// The type that calling `callee` yields.
    pub fn infer_call_result_type(&self, callee: MirValueId, depth: usize) -> (r: MirValueType)
        requires
            self.wf(),
        ensures
            r == self.call_result_type(callee, depth as nat),
    {
        if depth > 8 {
            return MirValueType::Unknown;
        }
        match self.resolve_callee_function_name(callee, depth) {
            Some(name) => {
                return match find_name(&self.function_return_types, name.as_str()) {
                    Some(i) => self.function_return_types[i].1,
                    None => MirValueType::Unknown,
                };
            },
            None => {},
        }
        match self.value_def(callee) {
            Some(MirValue::Param { index }) => {
                if *index < self.current_param_type_hints.len() {
                    match &self.current_param_type_hints[*index] {
                        Some(hint) => {
                            match parse_function_return_hint(hint.as_str()) {
                                Some(ret) => {
                                    return ret;
                                },
                                None => {},
                            }
                        },
                        None => {},
                    }
                }
                match self.value_type(callee) {
                    Some(t) => t,
                    None => MirValueType::Unknown,
                }
            },
            _ => MirValueType::Unknown,
        }
    }

    /// The import path that top-level name `name` is bound to by a `use`.
    pub open spec fn import_path_of(&self, name: Seq<char>) -> Option<Seq<char>> {
        match assoc_find(self.function_exprs@, name) {
            Some(e) => match e.kind {
                HirExprKind::Use { path } => Some(path@),
                _ => None,
            },
            None => None,
        }
    }

    /// The path of the `use` that top-level name `name` is bound to.
    pub fn top_level_import_path(&self, name: &str) -> (r: Option<&str>)
        ensures
            match r {
                Some(p) => self.import_path_of(name@) == Some(p@),
                None => self.import_path_of(name@) is None,
            },
    {
        match find_name(&self.function_exprs, name) {
            Some(i) => match &self.function_exprs[i].1.kind {
                HirExprKind::Use { path } => Some(path.as_str()),
                _ => None,
            },
            None => None,
        }
    }

    /// The program-wide name of member `field` of the module that
    /// `import_path` names from this function's module, when that module is
    /// known and exports `field`.
    pub open spec fn import_member_of(&self, import_path: Seq<char>, field: Seq<char>) -> Option<Seq<char>> {
        let target = spec_module_key_for_import(comps(self.module_key.directory@), self.module_key.module_name@, import_path);
        match key_find(self.module_ids_by_key@, target) {
            Some(id) => match id_lookup(self.module_exports_by_id@, id) {
                Some(exports) => if views(exports@).contains(field) {
                    Some(spec_qualified_function_name(id, field))
                } else {
                    None
                },
                None => None,
            },
            None => None,
        }
    }

    /// Resolves `field` of the module imported as `import_path` to the
    /// program-wide name of that module's function.
    pub fn resolve_import_member_ident(&self, import_path: &str, field: &str) -> (r: Option<String>)
        ensures
            match r {
                Some(n) => self.import_member_of(import_path@, field@) == Some(n@),
                None => self.import_member_of(import_path@, field@) is None,
            },
    {
        let target_key = module_key_for_import(&self.module_key, import_path);
        let ghost target = key_view(target_key);
        let ghost spec_target = spec_module_key_for_import(comps(self.module_key.directory@), self.module_key.module_name@, import_path@);
        assert(target == spec_target);
        let mut i: usize = 0;
        let mut found: Option<ModuleId> = None;
        while i < self.module_ids_by_key.len()
            invariant_except_break
                found is None,
            invariant
                i <= self.module_ids_by_key@.len(),
                target == key_view(target_key),
                forall|j: int| 0 <= j < i ==> key_view((#[trigger] self.module_ids_by_key@[j]).0) != target,
            ensures
                found matches Some(id) ==> key_find(self.module_ids_by_key@, target) == Some(id),
                found is None ==> forall|j: int| 0 <= j < self.module_ids_by_key@.len() ==> key_view(
                    (#[trigger] self.module_ids_by_key@[j]).0) != target,
            decreases self.module_ids_by_key.len() - i,
        {
            if key_equal(&self.module_ids_by_key[i].0, &target_key) {
                proof { lemma_key_find_at(self.module_ids_by_key@, target, i as int); }
                found = Some(self.module_ids_by_key[i].1);
                break;
            }
            i = i + 1;
        }
        proof {
            if found is None {
                lemma_key_find_none(self.module_ids_by_key@, target);
            }
        }
        let id = match found {
            Some(id) => id,
            None => {
                return None;
            },
        };
        let mut j: usize = 0;
        while j < self.module_exports_by_id.len()
            invariant
                j <= self.module_exports_by_id@.len(),
                target == spec_target,
                spec_target == spec_module_key_for_import(comps(self.module_key.directory@), self.module_key.module_name@, import_path@),
                key_find(self.module_ids_by_key@, target) == Some(id),
                forall|k: int| 0 <= k < j ==> (#[trigger] self.module_exports_by_id@[k]).0 != id,
            decreases self.module_exports_by_id.len() - j,
        {
            if self.module_exports_by_id[j].0.0 == id.0 {
                proof { lemma_id_lookup_at(self.module_exports_by_id@, id, j as int); }
                let exports = &self.module_exports_by_id[j].1;
                let mut k: usize = 0;
                while k < exports.len()
                    invariant
                        k <= exports@.len(),
                        target == spec_target,
                        spec_target == spec_module_key_for_import(comps(self.module_key.directory@), self.module_key.module_name@, import_path@),
                        key_find(self.module_ids_by_key@, target) == Some(id),
                        id_lookup(self.module_exports_by_id@, id) == Some(*exports),
                        forall|m: int| 0 <= m < k ==> (#[trigger] exports@[m])@ != field@,
                    decreases exports.len() - k,
                {
                    if string_eq_str(&exports[k], field) {
                        assert(views(exports@)[k as int] == field@);
                        return Some(qualified_function_name(id, field));
                    }
                    k = k + 1;
                }
                proof {
                    assert(!views(exports@).contains(field@)) by {
                        if views(exports@).contains(field@) {
                            let m = choose|m: int| 0 <= m < views(exports@).len() && views(exports@)[m] == field@;
                            assert(exports@[m]@ == field@);
                        }
                    }
                }
                return None;
            }
            j = j + 1;
        }
        proof { lemma_id_lookup_none(self.module_exports_by_id@, id); }
        None
    }

    /// The tag and representation width of variant `variant` of enum `root`,
    /// when the enum and the variant are known; an enum without a recorded
    /// width is 32 bits wide.
    pub open spec fn variant_tag_of(&self, root: Option<Seq<char>>, variant: Seq<char>) -> Option<(i64, u16)> {
        match root {
            Some(root) => match assoc_find(self.enum_variant_tags_by_name@, root) {
                Some(tags) => match assoc_find(tags@, variant) {
                    Some(tag) => Some((tag, match assoc_find(self.enum_repr_bits_by_name@, root) {
                        Some(bits) => bits,
                        None => 32u16,
                    })),
                    None => None,
                },
                None => None,
            },
            None => None,
        }
    }

    /// The tag and width of variant `variant` of enum `root`.
    pub fn enum_tag_and_bits_for_variant(&self, root: Option<&str>, variant: &str) -> (r: Option<(i64, u16)>)
        ensures
            r == self.variant_tag_of(match root { Some(s) => Some(s@), None => None }, variant@),
    {
        let root = match root {
            Some(root) => root,
            None => {
                return None;
            },
        };
        let i = match find_name(&self.enum_variant_tags_by_name, root) {
            Some(i) => i,
            None => {
                return None;
            },
        };
        let tags = &self.enum_variant_tags_by_name[i].1;
        let j = match find_name(tags, variant) {
            Some(j) => j,
            None => {
                return None;
            },
        };
        let tag = tags[j].1;
        let bits = match find_name(&self.enum_repr_bits_by_name, root) {
            Some(k) => self.enum_repr_bits_by_name[k].1,
            None => 32,
        };
        Some((tag, bits))
    }

    /// The tag of a variant of no known enum: the FNV-1a hash of its name's
    /// UTF-8 bytes, 1 in place of 0, 32 bits wide.
    pub fn anonymous_variant_tag_for(&self, variant: &str) -> (r: (i64, u16))
        ensures
            r == (if fnv1a(variant.spec_bytes()) == 0 { 1i64 } else { fnv1a(variant.spec_bytes()) as i64 }, 32u16),
    {
        let bytes = variant.as_bytes();
        let mut hash: u32 = 2166136261;
        let mut i: usize = 0;
        while i < bytes.len()
            invariant
                i <= bytes@.len(),
                bytes@ == variant.spec_bytes(),
                hash == fnv1a(bytes@.take(i as int)),
            decreases bytes.len() - i,
        {
            proof {
                assert(bytes@.take(i + 1).drop_last() =~= bytes@.take(i as int));
                assert(bytes@.take(i + 1).last() == bytes@[i as int]);
            }
            hash = hash ^ (bytes[i] as u32);
            hash = hash.wrapping_mul(16777619);
            i = i + 1;
        }
        assert(bytes@.take(bytes@.len() as int) =~= bytes@);
        let tag: i64 = if hash == 0 { 1 } else { hash as i64 };
        (tag, 32)
    }

    /// Whether a call of `callee_name` must be evaluated at compile time: the
    /// function returns a type, or one of its parameters asks for a
    /// compile-time value.
    pub open spec fn forces_comptime(&self, callee_name: Seq<char>) -> bool {
        assoc_find(self.function_return_types@, callee_name) == Some(MirValueType::Type) || match assoc_find(
            self.function_param_type_hints@, callee_name) {
            Some(params) => exists|i: int| 0 <= i < params@.len() && (#[trigger] params@[i] matches Some(h)
                && is_comptime_param_hint(h@)),
            None => false,
        }
    }

    /// Whether a call of `callee_name` must be evaluated at compile time.
    pub fn should_force_comptime_call(&self, callee_name: &str) -> (r: bool)
        ensures
            r == self.forces_comptime(callee_name@),
    {
        proof {
            reveal_strlit("comp type");
            assert("comp type"@ =~= seq!['c', 'o', 'm', 'p', ' ', 't', 'y', 'p', 'e']);
        }
        let is_type = match find_name(&self.function_return_types, callee_name) {
            Some(i) => matches!(self.function_return_types[i].1, MirValueType::Type),
            None => false,
        };
        if is_type {
            return true;
        }
        match find_name(&self.function_param_type_hints, callee_name) {
            Some(i) => {
                let params = &self.function_param_type_hints[i].1;
                let mut j: usize = 0;
                while j < params.len()
                    invariant
                        j <= params@.len(),
                        "comp type"@ == seq!['c', 'o', 'm', 'p', ' ', 't', 'y', 'p', 'e'],
                        assoc_find(self.function_param_type_hints@, callee_name@) == Some(*params),
                        forall|k: int| 0 <= k < j ==> !(#[trigger] params@[k] matches Some(h) && is_comptime_param_hint(h@)),
                    decreases params.len() - j,
                {
                    match &params[j] {
                        Some(hint) => {
                            let t = trimmed_chars(hint.as_str());
                            if matches!(parse_type_hint(hint.as_str()), MirValueType::Type) || eq_str(&t, "comp type") {
                                assert(params@[j as int] matches Some(h) && is_comptime_param_hint(h@));
                                return true;
                            }
                        },
                        None => {},
                    }
                    j = j + 1;
                }
                false
            },
            None => false,
        }
    }

    /// Whether a return hint among `function_return_hints` for
    /// `callee_name` satisfies the hint test `test` (by its contract `p`).
    fn any_return_hint(&self, callee_name: &str, errorable_aggregate: bool) -> (r: bool)
        ensures
            r == return_hint_satisfies(self.function_return_hints@, callee_name@, if errorable_aggregate {
                |h: Seq<char>| spec_hint_is_errorable_aggregate(h)
            } else {
                |h: Seq<char>| spec_hint_is_errorable_scalar(h)
            }),
    {
        let ghost p = if errorable_aggregate {
            |h: Seq<char>| spec_hint_is_errorable_aggregate(h)
        } else {
            |h: Seq<char>| spec_hint_is_errorable_scalar(h)
        };
        match find_name(&self.function_return_hints, callee_name) {
            Some(i) => match &self.function_return_hints[i].1 {
                Some(hint) => {
                    return self.hint_test(hint.as_str(), errorable_aggregate);
                },
                None => {},
            },
            None => {},
        }
        assert(!(assoc_find(self.function_return_hints@, callee_name@) matches Some(Some(_))));
        let mut suffix = string_from_str("::");
        push_str(&mut suffix, callee_name);
        proof {
            reveal_strlit("::");
            assert(suffix@ =~= seq![':', ':'] + callee_name@);
        }
        let sv = chars_of_string(&suffix);
        let mut k: usize = 0;
        while k < self.function_return_hints.len()
            invariant
                k <= self.function_return_hints@.len(),
                sv@ == seq![':', ':'] + callee_name@,
                !(assoc_find(self.function_return_hints@, callee_name@) matches Some(Some(_))),
                p == (if errorable_aggregate {
                    |h: Seq<char>| spec_hint_is_errorable_aggregate(h)
                } else {
                    |h: Seq<char>| spec_hint_is_errorable_scalar(h)
                }),
                forall|m: int| 0 <= m < k ==> !(is_suffix(seq![':', ':'] + callee_name@, (#[trigger] self.function_return_hints@[m]).0@)
                    && (self.function_return_hints@[m].1 matches Some(h) && p(h@))),
            decreases self.function_return_hints.len() - k,
        {
            let name_chars = chars_of_string(&self.function_return_hints[k].0);
            if ends_with_chars(&name_chars, &sv) {
                match &self.function_return_hints[k].1 {
                    Some(hint) => {
                        if self.hint_test(hint.as_str(), errorable_aggregate) {
                            assert(p(hint@));
                            assert(is_suffix(seq![':', ':'] + callee_name@, self.function_return_hints@[k as int].0@));
                            assert(some_suffixed_hint(self.function_return_hints@, callee_name@, p));
                            return true;
                        }
                    },
                    None => {},
                }
            }
            k = k + 1;
        }
        false
    }

    fn hint_test(&self, hint: &str, errorable_aggregate: bool) -> (r: bool)
        ensures
            r == if errorable_aggregate { spec_hint_is_errorable_aggregate(hint@) } else { spec_hint_is_errorable_scalar(hint@) },
    {
        if errorable_aggregate {
            return return_hint_is_errorable_aggregate(hint);
        }
        let v = chars_of(hint);
        let has_bang = match find_char(&v, '!') {
            Some(i) => {
                assert(v@[i as int] == '!');
                true
            },
            None => false,
        };
        if !has_bang || return_hint_is_errorable_aggregate(hint) {
            return false;
        }
        let candidate = hint_candidate(&v);
        let ok = return_hint_ok_type_text(&candidate);
        !matches!(parse_type_hint_text(&ok), MirValueType::BytesSlice)
    }

    /// Whether `callee_name` returns an error union around an aggregate, by
    /// its own return hint or, without one, by that of some function whose
    /// name ends in `::` and `callee_name`.
    pub fn function_returns_errorable_aggregate(&self, callee_name: &str) -> (r: bool)
        ensures
            r == return_hint_satisfies(self.function_return_hints@, callee_name@, |h: Seq<char>| spec_hint_is_errorable_aggregate(h)),
    {
        self.any_return_hint(callee_name, true)
    }

    /// Whether `callee_name` returns an error union around a scalar, by its
    /// own return hint or, without one, by that of some function whose name
    /// ends in `::` and `callee_name`.
    pub fn function_returns_errorable_scalar(&self, callee_name: &str) -> (r: bool)
        ensures
            r == return_hint_satisfies(self.function_return_hints@, callee_name@, |h: Seq<char>| spec_hint_is_errorable_scalar(h)),
    {
        self.any_return_hint(callee_name, false)
    }

    /// The value at `position` of sequence `base`: `sequence_value` when it
    /// is known, otherwise emitted as `base[position]` of type `result_ty`
    /// after an unsigned 32-bit literal `position`.
    pub fn value_from_sequence_or_index(&mut self, block: MirBlockId, base: MirValueId, sequence_value: Option<MirValueId>,
        position: usize, result_ty: MirValueType) -> (r: MirValueId)
        requires
            old(self).wf(),
            block.0 < old(self).num_blocks(),
            old(self).next_value + 2 < usize::MAX,
        ensures
            final(self).wf(),
            sequence_value matches Some(v) ==> r == v && *final(self) == *old(self),
            sequence_value is None ==> {
                let n = old(self).function.blocks@[block.0 as int].instructions@.len() as int;
                let ins = final(self).function.blocks@[block.0 as int].instructions@;
                &&& r.0 == old(self).next_value + 1
                &&& final(self).next_value == old(self).next_value + 2
                &&& extended(old(self).function.blocks@, final(self).function.blocks@, block.0 as int, 2)
                &&& literal_eval(ins[n], MirValueId(old(self).next_value), HirLiteralView::Integer(spec_decimal(position as nat)),
                    MirValueType::Int { signed: false, bits: 32 })
                &&& ins[n + 1] == MirInstr::Eval { dest: r, value: MirValue::Index { base, index: MirValueId(old(self).next_value) },
                    ty: result_ty }
                &&& forall|v: MirValueId| v.0 < old(self).next_value ==> final(self).type_of(v) == old(self).type_of(v)
                    && final(self).def_of(v) == old(self).def_of(v)
            },
            final(self).function.entry == old(self).function.entry,
            final(self).function.name == old(self).function.name,
            final(self).function.return_type == old(self).function.return_type,
            final(self).locals == old(self).locals,
            final(self).loop_stack == old(self).loop_stack,
            final(self).aggregate_sequences == old(self).aggregate_sequences,
            final(self).struct_fields == old(self).struct_fields,
            final(self).same_context(old(self)),
    {
        match sequence_value {
            Some(v) => v,
            None => {
                let lit = HirLiteral::Integer(u64_to_string(position as u64));
                let ty = MirValueType::Int { signed: false, bits: 32 };
                let ghost s0 = self.function.blocks@;
                let index_value = self.push_eval(block, MirValue::Literal(lit), ty);
                let ghost s1 = self.function.blocks@;
                let r = self.push_eval(block, MirValue::Index { base, index: index_value }, result_ty);
                proof {
                    lemma_appended_twice(s0, s1, self.function.blocks@, block.0 as int,
                        MirInstr::Eval { dest: index_value, value: MirValue::Literal(lit), ty },
                        MirInstr::Eval { dest: r, value: MirValue::Index { base, index: index_value }, ty: result_ty });
                }
                r
            },
        }
    }

    /// A literal with the same text or value.
    pub(crate) fn copy_literal(l: &HirLiteral) -> (r: HirLiteral)
        ensures
            r@ == l@,
    {
        match l {
            HirLiteral::Integer(t) => HirLiteral::Integer(t.clone()),
            HirLiteral::Float(t) => HirLiteral::Float(t.clone()),
            HirLiteral::Bool(b) => HirLiteral::Bool(*b),
            HirLiteral::Char(c) => HirLiteral::Char(*c),
            HirLiteral::String(t) => HirLiteral::String(t.clone()),
            HirLiteral::Null => HirLiteral::Null,
        }
    }

    /// Sets the terminator of `block` to `t` unless it has one.
    fn end_test(&mut self, block: MirBlockId, t: MirTerminator)
        requires
            old(self).wf(),
            block.0 < old(self).num_blocks(),
            jumps_within(Some(t), old(self).num_blocks()),
        ensures
            final(self).wf(),
            old(self).function.blocks@[block.0 as int].terminator is Some ==> *final(self) == *old(self),
            old(self).function.blocks@[block.0 as int].terminator is None ==> terminated(old(self).function.blocks@,
                final(self).function.blocks@, block.0 as int, t),
            final(self).function.entry == old(self).function.entry,
            final(self).function.name == old(self).function.name,
            final(self).function.return_type == old(self).function.return_type,
            final(self).next_value == old(self).next_value,
            final(self).locals == old(self).locals,
            final(self).loop_stack == old(self).loop_stack,
            final(self).same_context(old(self)),
    {
        if !self.is_terminated(block) {
            self.set_terminator(block, t);
        }
    }

    /// A test block grown by `k` instructions to `mid`, then ended by `t`
    /// unless it had a terminator, is grown as `test_block_grown` says.
    proof fn lemma_end_test_grown(old: &FunctionLowerer, new: &FunctionLowerer, b: int, mid: Seq<MirBasicBlock>, k: nat,
        t: MirTerminator)
        requires
            extended(old.function.blocks@, mid, b, k),
            mid[b].terminator is Some ==> new.function.blocks@ == mid,
            mid[b].terminator is None ==> terminated(mid, new.function.blocks@, b, t),
        ensures
            Self::test_block_grown(old, new, b, k, t),
    {
        let ob = old.function.blocks@;
        let nb = new.function.blocks@;
        assert forall|i: int| 0 <= i < ob.len() && i != b implies #[trigger] nb[i] == ob[i] by {
            assert(mid[i] == ob[i]);
        }
    }

    /// The tag that an enum variant named without a root gets: the 32-bit
    /// FNV-1a hash of its name's bytes (1 where that is 0), 32 bits wide.
    pub open spec fn anonymous_tag(variant: Seq<char>) -> (i64, u16) {
        let h = fnv1a(vstd::utf8::encode_utf8(variant));
        (if h == 0 { 1i64 } else { h as i64 }, 32u16)
    }

    /// The first recorded element of an aggregate, if any.
    pub open spec fn first_element(sq: Option<Seq<MirValueId>>) -> Option<MirValueId> {
        match sq {
            Some(s) => if s.len() > 0 { Some(s[0]) } else { None },
            None => None,
        }
    }

    /// Block `b` of `new` is block `b` of `old` with `extra` instructions
    /// added and, when it had none, the terminator `t`; the other blocks are
    /// unchanged.
    pub open spec fn test_block_grown(old: &FunctionLowerer, new: &FunctionLowerer, b: int, extra: nat, t: MirTerminator) -> bool {
        let ob = old.function.blocks@;
        let nb = new.function.blocks@;
        &&& nb.len() == ob.len()
        &&& 0 <= b < ob.len()
        &&& forall|i: int| 0 <= i < ob.len() && i != b ==> #[trigger] nb[i] == ob[i]
        &&& nb[b].id == ob[b].id
        &&& nb[b].instructions@.len() == ob[b].instructions@.len() + extra
        &&& nb[b].instructions@.take(ob[b].instructions@.len() as int) == ob[b].instructions@
        &&& nb[b].terminator == (if ob[b].terminator is Some { ob[b].terminator } else { Some(t) })
    }

    /// What lowering the test of `pattern` against `s` in block `b` does,
    /// from `old` to `new`, jumping to `t` on a match and to `e` otherwise: a
    /// pattern that always matches jumps to `t`; a literal is compared for
    /// equality; a range checks `start <= s` and `s < end` (`<=` when
    /// inclusive); an enum variant compares the scrutinee's tag (its first
    /// recorded element, else element 0 read by indexing) with the variant's
    /// tag, and a variant whose rooted enum is unknown is reported (E4005)
    /// and jumps to `e`.
    pub open spec fn pattern_test(old: &FunctionLowerer, new: &FunctionLowerer, b: int, s: MirValueId, pattern: HirPattern,
        t: MirBlockId, e: MirBlockId) -> bool {
        let n = old.function.blocks@[b].instructions@.len() as int;
        let ins = new.function.blocks@[b].instructions@;
        let nv = old.next_value;
        match pattern {
            HirPattern::Literal(lit) => {
                &&& new.next_value == nv + 2
                &&& Self::test_block_grown(old, new, b, 2, MirTerminator::Branch {
                    condition: MirValueId((nv + 1) as usize),
                    then_block: t,
                    else_block: e,
                })
                &&& literal_eval(ins[n], MirValueId(nv), lit@, spec_literal_type(lit@))
                &&& ins[n + 1] == MirInstr::Eval {
                    dest: MirValueId((nv + 1) as usize),
                    value: MirValue::Binary { op: BinaryOp::Eq, left: s, right: MirValueId(nv) },
                    ty: MirValueType::Bool,
                }
                &&& new.diagnostics == old.diagnostics
            },
            HirPattern::RangeLiteral { start, end, inclusive } => {
                &&& new.next_value == nv + 5
                &&& Self::test_block_grown(old, new, b, 5, MirTerminator::Branch {
                    condition: MirValueId((nv + 4) as usize),
                    then_block: t,
                    else_block: e,
                })
                &&& literal_eval(ins[n], MirValueId(nv), start@, spec_literal_type(start@))
                &&& literal_eval(ins[n + 1], MirValueId((nv + 1) as usize), end@, spec_literal_type(end@))
                &&& ins[n + 2] == MirInstr::Eval {
                    dest: MirValueId((nv + 2) as usize),
                    value: MirValue::Binary { op: BinaryOp::Ge, left: s, right: MirValueId(nv) },
                    ty: MirValueType::Bool,
                }
                &&& ins[n + 3] == MirInstr::Eval {
                    dest: MirValueId((nv + 3) as usize),
                    value: MirValue::Binary {
                        op: if inclusive { BinaryOp::Le } else { BinaryOp::Lt },
                        left: s,
                        right: MirValueId((nv + 1) as usize),
                    },
                    ty: MirValueType::Bool,
                }
                &&& ins[n + 4] == MirInstr::Eval {
                    dest: MirValueId((nv + 4) as usize),
                    value: MirValue::Binary {
                        op: BinaryOp::LogicalAnd,
                        left: MirValueId((nv + 2) as usize),
                        right: MirValueId((nv + 3) as usize),
                    },
                    ty: MirValueType::Bool,
                }
                &&& new.diagnostics == old.diagnostics
            },
            HirPattern::EnumVariant { root, variant, .. } => {
                let rv = match root {
                    Some(r) => Some(r@),
                    None => None,
                };
                let tag = old.variant_tag_of(rv, variant@);
                if tag is None && root is Some {
                    &&& new.next_value == nv
                    &&& Self::test_block_grown(old, new, b, 0, MirTerminator::Goto(e))
                    &&& new.diagnostics@.len() == old.diagnostics@.len() + 1
                    &&& new.diagnostics@.drop_last() == old.diagnostics@
                    &&& new.diagnostics@.last().severity == Severity::Error
                    &&& new.diagnostics@.last().phase == DiagnosticPhase::Mir
                    &&& new.diagnostics@.last().code == DiagnosticCode::E4005
                    &&& new.diagnostics@.last().message@ == "cannot resolve enum match pattern '"@ + variant@
                        + "'; use an explicit enum root"@
                    &&& new.diagnostics@.last().primary_label matches Some(l) && l.file@ == old.source_file_path@
                        && l.span is None
                } else {
                    let tb = match tag {
                        Some(x) => x,
                        None => Self::anonymous_tag(variant@),
                    };
                    let uty = MirValueType::Int { signed: false, bits: tb.1 };
                    match Self::first_element(old.aggregate_of(s)) {
                        Some(st) => {
                            &&& new.next_value == nv + 2
                            &&& Self::test_block_grown(old, new, b, 2, MirTerminator::Branch {
                                condition: MirValueId((nv + 1) as usize),
                                then_block: t,
                                else_block: e,
                            })
                            &&& literal_eval(ins[n], MirValueId(nv), HirLiteralView::Integer(spec_int_text(tb.0 as int)), uty)
                            &&& ins[n + 1] == MirInstr::Eval {
                                dest: MirValueId((nv + 1) as usize),
                                value: MirValue::Binary { op: BinaryOp::Eq, left: st, right: MirValueId(nv) },
                                ty: MirValueType::Bool,
                            }
                            &&& new.diagnostics == old.diagnostics
                        },
                        None => {
                            &&& new.next_value == nv + 4
                            &&& Self::test_block_grown(old, new, b, 4, MirTerminator::Branch {
                                condition: MirValueId((nv + 3) as usize),
                                then_block: t,
                                else_block: e,
                            })
                            &&& literal_eval(ins[n], MirValueId(nv), HirLiteralView::Integer(spec_decimal(0)),
                                MirValueType::Int { signed: false, bits: 32 })
                            &&& ins[n + 1] == MirInstr::Eval {
                                dest: MirValueId((nv + 1) as usize),
                                value: MirValue::Index { base: s, index: MirValueId(nv) },
                                ty: uty,
                            }
                            &&& literal_eval(ins[n + 2], MirValueId((nv + 2) as usize),
                                HirLiteralView::Integer(spec_int_text(tb.0 as int)), uty)
                            &&& ins[n + 3] == MirInstr::Eval {
                                dest: MirValueId((nv + 3) as usize),
                                value: MirValue::Binary {
                                    op: BinaryOp::Eq,
                                    left: MirValueId((nv + 1) as usize),
                                    right: MirValueId((nv + 2) as usize),
                                },
                                ty: MirValueType::Bool,
                            }
                            &&& new.diagnostics == old.diagnostics
                        },
                    }
                }
            },
            _ => {
                &&& new.next_value == nv
                &&& Self::test_block_grown(old, new, b, 0, MirTerminator::Goto(t))
                &&& new.diagnostics == old.diagnostics
            },
        }
    }

    /// Ends block `test_block` with the test of `pattern` against
    /// `scrutinee_value`: to `then_block` when it matches, to `else_block`
    /// otherwise, unless the block already has a terminator.
    pub fn lower_match_pattern(&mut self, test_block: MirBlockId, scrutinee_value: MirValueId, pattern: &HirPattern,
        then_block: MirBlockId, else_block: MirBlockId)
        requires
            old(self).wf(),
            test_block.0 < old(self).num_blocks(),
            then_block.0 < old(self).num_blocks(),
            else_block.0 < old(self).num_blocks(),
            old(self).next_value + 8 < usize::MAX,
        ensures
            final(self).wf(),
            final(self).function.entry == old(self).function.entry,
            final(self).function.name == old(self).function.name,
            final(self).function.return_type == old(self).function.return_type,
            final(self).locals == old(self).locals,
            final(self).loop_stack == old(self).loop_stack,
            final(self).same_tables(old(self)),
            Self::pattern_test(old(self), final(self), test_block.0 as int, scrutinee_value, *pattern, then_block, else_block),
    {
        let ghost o = *old(self);
        let ghost b = test_block.0 as int;
        let ghost nv = old(self).next_value;
        proof {
            assert(old(self).function.blocks@.take(old(self).function.blocks@.len() as int) =~= old(self).function.blocks@);
        }
        match pattern {
            HirPattern::Literal(literal) => {
                let lit_ty = literal_type(literal);
                let ghost s0 = self.function.blocks@;
                let literal_value = self.push_eval(test_block, MirValue::Literal(Self::copy_literal(literal)), lit_ty);
                let ghost s1 = self.function.blocks@;
                let cond = self.push_eval(test_block, MirValue::Binary { op: BinaryOp::Eq, left: scrutinee_value, right: literal_value },
                    MirValueType::Bool);
                let ghost s2 = self.function.blocks@;
                proof {
                    let ghost i1 = s1[b].instructions@[s0[b].instructions@.len() as int];
                    lemma_appended_twice(s0, s1, s2, b, i1, MirInstr::Eval { dest: cond, value: MirValue::Binary {
                        op: BinaryOp::Eq, left: scrutinee_value, right: literal_value }, ty: MirValueType::Bool });
                }
                self.end_test(test_block, MirTerminator::Branch { condition: cond, then_block, else_block });
                proof { Self::lemma_end_test_grown(&o, self, b, s2, 2, MirTerminator::Branch { condition: cond, then_block, else_block }); }
            },
            HirPattern::RangeLiteral { start, end, inclusive } => {
                let ghost s0 = self.function.blocks@;
                let start_value = self.push_eval(test_block, MirValue::Literal(Self::copy_literal(start)), literal_type(start));
                let ghost s1 = self.function.blocks@;
                let end_value = self.push_eval(test_block, MirValue::Literal(Self::copy_literal(end)), literal_type(end));
                let ghost s2 = self.function.blocks@;
                let lower_ok = self.push_eval(test_block, MirValue::Binary { op: BinaryOp::Ge, left: scrutinee_value, right: start_value },
                    MirValueType::Bool);
                let ghost s3 = self.function.blocks@;
                let upper_op = if *inclusive { BinaryOp::Le } else { BinaryOp::Lt };
                let upper_ok = self.push_eval(test_block, MirValue::Binary { op: upper_op, left: scrutinee_value, right: end_value },
                    MirValueType::Bool);
                let ghost s4 = self.function.blocks@;
                let cond = self.push_eval(test_block, MirValue::Binary { op: BinaryOp::LogicalAnd, left: lower_ok, right: upper_ok },
                    MirValueType::Bool);
                let ghost s5 = self.function.blocks@;
                proof {
                    let n0 = s0[b].instructions@.len() as int;
                    lemma_appended_extends(s0, s1, b, s1[b].instructions@[n0]);
                    lemma_appended_extends(s1, s2, b, s2[b].instructions@[n0 + 1]);
                    lemma_appended_extends(s2, s3, b, s3[b].instructions@[n0 + 2]);
                    lemma_appended_extends(s3, s4, b, s4[b].instructions@[n0 + 3]);
                    lemma_appended_extends(s4, s5, b, s5[b].instructions@[n0 + 4]);
                    lemma_extended_trans(s0, s1, s2, b, 1, 1);
                    lemma_extended_trans(s0, s2, s3, b, 2, 1);
                    lemma_extended_trans(s0, s3, s4, b, 3, 1);
                    lemma_extended_trans(s0, s4, s5, b, 4, 1);
                    lemma_extended_trans(s3, s4, s5, b, 1, 1);
                    lemma_extended_trans(s2, s3, s5, b, 1, 2);
                    lemma_extended_trans(s1, s2, s5, b, 1, 3);
                }
                self.end_test(test_block, MirTerminator::Branch { condition: cond, then_block, else_block });
                proof { Self::lemma_end_test_grown(&o, self, b, s5, 5, MirTerminator::Branch { condition: cond, then_block, else_block }); }
            },
            HirPattern::EnumVariant { root, variant, .. } => {
                let root_str: Option<&str> = match root {
                    Some(r) => Some(r.as_str()),
                    None => None,
                };
                let tag = self.enum_tag_and_bits_for_variant(root_str, variant.as_str());
                let (variant_tag, tag_bits) = match tag {
                    Some((t, bits)) => (t, bits),
                    None => {
                        if root.is_none() {
                            self.anonymous_variant_tag_for(variant.as_str())
                        } else {
                            let mut message = string_from_str("cannot resolve enum match pattern '");
                            push_str(&mut message, variant.as_str());
                            push_str(&mut message, "'; use an explicit enum root");
                            let d = Diagnostic::error(DiagnosticPhase::Mir, DiagnosticCode::E4005, message)
                                .with_primary_file_label(
                                    self.source_file_path.clone(),
                                    None,
                                    string_from_str("qualify the enum pattern (for example `MyEnum.Variant`)"),
                                );
                            self.diagnostics.push(d);
                            proof {
                                assert(self.diagnostics@.drop_last() =~= old(self).diagnostics@);
                            }
                            let ghost s0 = self.function.blocks@;
                            self.end_test(test_block, MirTerminator::Goto(else_block));
                            proof {
                                assert(s0[b].instructions@.take(s0[b].instructions@.len() as int) =~= s0[b].instructions@);
                                assert(extended(s0, s0, b, 0));
                                Self::lemma_end_test_grown(&o, self, b, s0, 0, MirTerminator::Goto(else_block));
                            }
                            return;
                        }
                    },
                };
                let uty = MirValueType::Int { signed: false, bits: tag_bits };
                let agg = self.find_aggregate(scrutinee_value);
                let first: Option<MirValueId> = match agg {
                    Some(i) => if self.aggregate_sequences[i].1.len() > 0 { Some(self.aggregate_sequences[i].1[0]) } else { None },
                    None => None,
                };
                let ghost s0 = self.function.blocks@;
                let scrutinee_tag = self.value_from_sequence_or_index(test_block, scrutinee_value, first, 0, uty);
                let ghost s1 = self.function.blocks@;
                let ghost k1: nat = if first is Some { 0 } else { 2 };
                let expected_tag = self.push_eval(test_block, MirValue::Literal(HirLiteral::Integer(i64_to_string(variant_tag))), uty);
                let ghost s2 = self.function.blocks@;
                let cond = self.push_eval(test_block, MirValue::Binary { op: BinaryOp::Eq, left: scrutinee_tag, right: expected_tag },
                    MirValueType::Bool);
                let ghost s3 = self.function.blocks@;
                proof {
                    if first is Some {
                        assert(s1 == s0);
                        assert(s0[b].instructions@.take(s0[b].instructions@.len() as int) =~= s0[b].instructions@);
                        assert(extended(s0, s1, b, 0));
                    }
                    let n1 = s1[b].instructions@.len() as int;
                    lemma_appended_twice(s1, s2, s3, b, s2[b].instructions@[n1], s3[b].instructions@[n1 + 1]);
                    lemma_extended_trans(s0, s1, s3, b, k1, 2);
                }
                self.end_test(test_block, MirTerminator::Branch { condition: cond, then_block, else_block });
                proof {
                    Self::lemma_end_test_grown(&o, self, b, s3, k1 + 2, MirTerminator::Branch { condition: cond, then_block, else_block });
                }
            },
            _ => {
                let ghost s0 = self.function.blocks@;
                self.end_test(test_block, MirTerminator::Goto(then_block));
                proof {
                    assert(s0[b].instructions@.take(s0[b].instructions@.len() as int) =~= s0[b].instructions@);
                                assert(extended(s0, s0, b, 0));
                    Self::lemma_end_test_grown(&o, self, b, s0, 0, MirTerminator::Goto(then_block));
                }
            },
        }
    }

    /// The local bindings that matching `scrutinee_value` against `pattern`
    /// introduces, with the block where they are available: a named
    /// identifier pattern binds the scrutinee; an enum pattern binds each
    /// named binding to its payload slot (slot 1 for the first binding),
    /// taken from the scrutinee's recorded elements when there is one and
    /// otherwise read by indexing; other patterns bind nothing.
    pub fn pattern_binding_values(&mut self, block: MirBlockId, scrutinee_value: MirValueId, pattern: &HirPattern) -> (r: (MirBlockId, Vec<(String, MirValueId)>))
        requires
            old(self).wf(),
            block.0 < old(self).num_blocks(),
            pattern matches HirPattern::EnumVariant { bindings, .. } ==> old(self).next_value + 2 * bindings@.len() + 2 < usize::MAX,
        ensures
            final(self).wf(),
            r.0 == block,
            match *pattern {
                HirPattern::IdentBind(name) => if is_wild(name@) {
                    r.1@.len() == 0 && *final(self) == *old(self)
                } else {
                    bindings_view(r.1@) == seq![(name@, scrutinee_value)] && *final(self) == *old(self)
                },
                HirPattern::EnumVariant { bindings, .. } => {
                    let bs = views(bindings@);
                    let sq = old(self).aggregate_of(scrutinee_value);
                    let n0 = old(self).function.blocks@[block.0 as int].instructions@.len() as int;
                    let ins = final(self).function.blocks@[block.0 as int].instructions@;
                    let nv = old(self).next_value as int;
                    &&& bindings_view(r.1@) == enum_bindings(bs, sq, old(self).next_value as nat)
                    &&& final(self).next_value == old(self).next_value + 2 * fresh_slots(bs, sq)
                    &&& extended(old(self).function.blocks@, final(self).function.blocks@, block.0 as int, 2 * fresh_slots(bs, sq))
                    &&& slot_instrs(ins, bs, sq, n0, nv, scrutinee_value, bs.len() as int)
                    &&& forall|v: MirValueId| v.0 < old(self).next_value ==> final(self).type_of(v) == old(self).type_of(v)
                        && final(self).def_of(v) == old(self).def_of(v)
                },
                _ => r.1@.len() == 0 && *final(self) == *old(self),
            },
            final(self).function.entry == old(self).function.entry,
            final(self).locals == old(self).locals,
            final(self).loop_stack == old(self).loop_stack,
            final(self).same_context(old(self)),
    {
        match pattern {
            HirPattern::IdentBind(name) => {
                if string_eq_str(name, "_") {
                    proof {
                        reveal_strlit("_");
                        assert("_"@ =~= seq!['_']);
                    }
                    (block, Vec::new())
                } else {
                    proof {
                        reveal_strlit("_");
                        assert("_"@ =~= seq!['_']);
                    }
                    let mut out: Vec<(String, MirValueId)> = Vec::new();
                    out.push((name.clone(), scrutinee_value));
                    assert(bindings_view(out@) =~= seq![(name@, scrutinee_value)]);
                    (block, out)
                }
            },
            HirPattern::EnumVariant { bindings, .. } => {
                let out = self.enum_pattern_binding_values(block, scrutinee_value, bindings);
                (block, out)
            },
            _ => (block, Vec::new()),
        }
    }

    /// The values of the named `bindings` of an enum pattern over
    /// `scrutinee_value`, emitted into `block` where not recorded.
    #[verifier::rlimit(40)]
    fn enum_pattern_binding_values(&mut self, block: MirBlockId, scrutinee_value: MirValueId, bindings: &Vec<String>) -> (r: Vec<(String, MirValueId)>)
        requires
            old(self).wf(),
            block.0 < old(self).num_blocks(),
            old(self).next_value + 2 * bindings@.len() + 2 < usize::MAX,
        ensures
            final(self).wf(),
            ({
                let bs = views(bindings@);
                let sq = old(self).aggregate_of(scrutinee_value);
                let n0 = old(self).function.blocks@[block.0 as int].instructions@.len() as int;
                let ins = final(self).function.blocks@[block.0 as int].instructions@;
                let nv = old(self).next_value as int;
                &&& bindings_view(r@) == enum_bindings(bs, sq, old(self).next_value as nat)
                &&& final(self).next_value == old(self).next_value + 2 * fresh_slots(bs, sq)
                &&& extended(old(self).function.blocks@, final(self).function.blocks@, block.0 as int, 2 * fresh_slots(bs, sq))
                &&& slot_instrs(ins, bs, sq, n0, nv, scrutinee_value, bs.len() as int)
                &&& forall|v: MirValueId| v.0 < old(self).next_value ==> final(self).type_of(v) == old(self).type_of(v)
                    && final(self).def_of(v) == old(self).def_of(v)
            }),
            final(self).function.entry == old(self).function.entry,
            final(self).locals == old(self).locals,
            final(self).loop_stack == old(self).loop_stack,
            final(self).same_context(old(self)),
    {
        proof {
            reveal_strlit("_");
            assert("_"@ =~= seq!['_']);
        }
        let ghost bs = views(bindings@);
        let ghost sq = old(self).aggregate_of(scrutinee_value);
        let ghost n0 = old(self).function.blocks@[block.0 as int].instructions@.len() as int;
        let ghost nv = old(self).next_value as int;
        let agg = self.find_aggregate(scrutinee_value);
        let mut out: Vec<(String, MirValueId)> = Vec::new();
        let mut idx: usize = 0;
        proof {
            assert(self.function.blocks@[block.0 as int].instructions@.take(n0) =~= self.function.blocks@[block.0 as int].instructions@);
            assert(bs.take(0) =~= Seq::<Seq<char>>::empty());
            assert(bindings_view(out@) =~= Seq::<(Seq<char>, MirValueId)>::empty());
            lemma_slot_instrs_none(self.function.blocks@[block.0 as int].instructions@, bs, sq, n0, nv, scrutinee_value);
        }
        while idx < bindings.len()
            invariant
                idx <= bindings@.len(),
                bs == views(bindings@),
                "_"@ == seq!['_'],
                self.wf(),
                block.0 < old(self).num_blocks(),
                old(self).next_value + 2 * bindings@.len() + 2 < usize::MAX,
                sq == old(self).aggregate_of(scrutinee_value),
                n0 == old(self).function.blocks@[block.0 as int].instructions@.len() as int,
                nv == old(self).next_value as int,
                self.same_context(old(self)),
                match agg {
                    Some(i) => i < self.aggregate_sequences@.len() && sq == Some(self.aggregate_sequences@[i as int].1@),
                    None => sq is None,
                },
                bindings_view(out@) == enum_bindings(bs.take(idx as int), sq, old(self).next_value as nat),
                self.next_value == old(self).next_value + 2 * fresh_slots(bs.take(idx as int), sq),
                fresh_slots(bs.take(idx as int), sq) <= idx,
                extended(old(self).function.blocks@, self.function.blocks@, block.0 as int, 2 * fresh_slots(bs.take(idx as int), sq)),
                slot_instrs(self.function.blocks@[block.0 as int].instructions@, bs, sq, n0, nv, scrutinee_value, idx as int),
                forall|v: MirValueId| v.0 < old(self).next_value ==> self.type_of(v) == old(self).type_of(v)
                    && self.def_of(v) == old(self).def_of(v),
                self.function.entry == old(self).function.entry,
                self.locals == old(self).locals,
                self.loop_stack == old(self).loop_stack,
            decreases bindings.len() - idx,
        {
            let ghost pre = *self;
            let ghost bt = bs.take(idx as int);
            let ghost bt1 = bs.take(idx + 1);
            proof {
                assert(bt1.drop_last() =~= bt);
                assert(bt1.last() == bs[idx as int]);
                assert(bs[idx as int] == bindings@[idx as int]@);
                lemma_fresh_slots_take_step(bs, sq, idx as int);
            }
            let name = &bindings[idx];
            if !string_eq_str(name, "_") {
                let payload_index = idx + 1;
                let known: Option<MirValueId> = match agg {
                    Some(i) => {
                        if payload_index < self.aggregate_sequences[i].1.len() {
                            Some(self.aggregate_sequences[i].1[payload_index])
                        } else {
                            None
                        }
                    },
                    None => None,
                };
                assert(known == seq_value_at(sq, payload_index as int));
                let payload_value = self.value_from_sequence_or_index(block, scrutinee_value, known, payload_index, MirValueType::Unknown);
                let ghost out0 = out@;
                out.push((name.clone(), payload_value));
                proof {
                    assert(bindings_view(out@) =~= bindings_view(out0).push((name@, payload_value)));
                    if known is None {
                        lemma_extended_trans(old(self).function.blocks@, pre.function.blocks@, self.function.blocks@,
                            block.0 as int, 2 * fresh_slots(bt, sq), 2);
                    }
                    lemma_slot_instrs_step(pre.function.blocks@[block.0 as int].instructions@,
                        self.function.blocks@[block.0 as int].instructions@, bs, sq, n0, nv, scrutinee_value, idx as int);
                }
            } else {
                proof {
                    lemma_slot_instrs_step(pre.function.blocks@[block.0 as int].instructions@,
                        self.function.blocks@[block.0 as int].instructions@, bs, sq, n0, nv, scrutinee_value, idx as int);
                }
            }
            idx = idx + 1;
        }
        proof {
            assert(bs.take(bindings@.len() as int) =~= bs);
        }
        out
    }

    /// The bindings that `pattern_binding_values` gives for `pattern` over
    /// `scrutinee_value` in this state.
    pub open spec fn pattern_bindings(&self, scrutinee_value: MirValueId, pattern: HirPattern) -> Seq<(Seq<char>, MirValueId)> {
        match pattern {
            HirPattern::IdentBind(name) => if is_wild(name@) { Seq::empty() } else { seq![(name@, scrutinee_value)] },
            HirPattern::EnumVariant { bindings, .. } => enum_bindings(views(bindings@), self.aggregate_of(scrutinee_value),
                self.next_value as nat),
            _ => Seq::empty(),
        }
    }

    /// Binds the locals that matching `scrutinee_value` against `pattern`
    /// introduces, in order, and returns the block where they are available
    /// with each name and its previous binding, for restoring them.
    pub fn bind_match_pattern_values(&mut self, block: MirBlockId, scrutinee_value: MirValueId, pattern: &HirPattern)
        -> (r: (MirBlockId, Vec<(String, Option<MirValueId>)>))
        requires
            old(self).wf(),
            block.0 < old(self).num_blocks(),
            pattern matches HirPattern::EnumVariant { bindings, .. } ==> old(self).next_value + 2 * bindings@.len() + 2 < usize::MAX,
            scrutinee_value.0 < old(self).next_value,
            old(self).aggregate_of(scrutinee_value) matches Some(sq) ==> forall|i: int| 0 <= i < sq.len() ==> (#[trigger] sq[i]).0
                < old(self).next_value,
        ensures
            final(self).wf(),
            r.0 == block,
            ({
                let bs = old(self).pattern_bindings(scrutinee_value, *pattern);
                &&& saved_view(r.1@).len() == bs.len()
                &&& forall|i: int| 0 <= i < bs.len() ==> #[trigger] saved_view(r.1@)[i] == (bs[i].0, rebind_view(bs.take(i), bs[i].0,
                    old(self).local(bs[i].0)))
                &&& forall|x: Seq<char>| #[trigger] final(self).local(x) == rebind_view(bs, x, old(self).local(x))
            }),
            pattern_values_emitted(*old(self), final(self).function, final(self).next_value, block, scrutinee_value, *pattern),
            final(self).function.entry == old(self).function.entry,
            final(self).loop_stack == old(self).loop_stack,
            final(self).same_context(old(self)),
    {
        let ghost bs = old(self).pattern_bindings(scrutinee_value, *pattern);
        let (end, bindings) = self.pattern_binding_values(block, scrutinee_value, pattern);
        proof {
            assert(bindings_view(bindings@) == bs);
            assert forall|i: int| 0 <= i < bs.len() implies (#[trigger] bs[i]).1.0 < self.next_value by {
                match *pattern {
                    HirPattern::EnumVariant { bindings: bv, .. } => {
                        lemma_enum_bindings_allocated(views(bv@), old(self).aggregate_of(scrutinee_value),
                            old(self).next_value as nat, i);
                        lemma_fresh_slots_bound(views(bv@), old(self).aggregate_of(scrutinee_value));
                    },
                    _ => {},
                }
            }
        }
        let ghost mid = *self;
        assert(pattern_values_emitted(*old(self), mid.function, mid.next_value, block, scrutinee_value, *pattern));
        let mut saved: Vec<(String, Option<MirValueId>)> = Vec::new();
        let mut i: usize = 0;
        while i < bindings.len()
            invariant
                i <= bindings@.len(),
                bindings_view(bindings@) == bs,
                forall|j: int| 0 <= j < bs.len() ==> (#[trigger] bs[j]).1.0 < mid.next_value,
                self.wf(),
                self.next_value == mid.next_value,
                self.function == mid.function,
                self.loop_stack == mid.loop_stack,
                self.same_context(&mid),
                saved_view(saved@).len() == i,
                forall|j: int| 0 <= j < i ==> #[trigger] saved_view(saved@)[j] == (bs[j].0, rebind_view(bs.take(j), bs[j].0,
                    old(self).local(bs[j].0))),
                forall|x: Seq<char>| #[trigger] self.local(x) == rebind_view(bs.take(i as int), x, old(self).local(x)),
                forall|x: Seq<char>| #[trigger] mid.local(x) == old(self).local(x),
            decreases bindings.len() - i,
        {
            let ghost pre_saved = saved@;
            proof {
                assert(bindings_view(bindings@)[i as int] == bs[i as int]);
                assert(bs.take(i + 1).drop_last() =~= bs.take(i as int));
                assert(bs.take(i + 1).last() == bs[i as int]);
            }
            let entry = self.save_local_binding(bindings[i].0.as_str(), bindings[i].1);
            saved.push(entry);
            proof {
                assert(saved_view(saved@) =~= saved_view(pre_saved).push((bs[i as int].0, rebind_view(bs.take(i as int),
                    bs[i as int].0, old(self).local(bs[i as int].0)))));
            }
            i = i + 1;
        }
        proof {
            assert(bs.take(bs.len() as int) =~= bs);
        }
        (end, saved)
    }

    /// Places call arguments into the slots of the parameters: named ones by
    /// name, positional ones into the empty slots in order.
    pub fn order_named_call_items<T: Copy>(&self, param_names: &[String], args: &[(Option<String>, T)]) -> (r: Vec<Option<T>>)
        ensures
            r@ == place_args(views(param_names@), args_view(args@)).0,
    {
        let ghost params = views(param_names@);
        let ghost av = args_view(args@);
        let n = param_names.len();
        let mut ordered: Vec<Option<T>> = Vec::new();
        let mut z: usize = 0;
        while z < n
            invariant
                z <= n,
                n == param_names@.len(),
                ordered@ == Seq::new(z as nat, |i: int| None::<T>),
            decreases n - z,
        {
            ordered.push(None);
            z = z + 1;
            assert(ordered@ =~= Seq::new(z as nat, |i: int| None::<T>));
        }
        let mut positional_cursor: usize = 0;
        let mut a: usize = 0;
        proof {
            assert(av.take(0) =~= Seq::<(Option<Seq<char>>, T)>::empty());
        }
        while a < args.len()
            invariant
                a <= args@.len(),
                n == param_names@.len(),
                params == views(param_names@),
                av == args_view(args@),
                ordered@ == place_args(params, av.take(a as int)).0,
                positional_cursor as int == place_args(params, av.take(a as int)).1,
                ordered@.len() == n,
                positional_cursor <= n,
            decreases args.len() - a,
        {
            proof {
                assert(av.take(a + 1).drop_last() =~= av.take(a as int));
                assert(av.take(a + 1).last() == av[a as int]);
            }
            let value = args[a].1;
            match &args[a].0 {
                Some(arg_name) => {
                    let mut p: usize = 0;
                    while p < n
                        invariant
                            p <= n,
                            n == param_names@.len(),
                            params == views(param_names@),
                            forall|j: int| 0 <= j < p ==> params[j] != arg_name@,
                        ensures
                            p <= n,
                            forall|j: int| 0 <= j < p ==> params[j] != arg_name@,
                            p < n ==> params[p as int] == arg_name@,
                        decreases n - p,
                    {
                        if string_eq(&param_names[p], arg_name) {
                            assert(params[p as int] == param_names@[p as int]@);
                            break;
                        }
                        p = p + 1;
                    }
                    if p < n {
                        proof {
                            assert(params[p as int] == param_names@[p as int]@);
                            lemma_first_param_at(params, arg_name@, p as int);
                        }
                        ordered.set(p, Some(value));
                    } else {
                        proof { lemma_first_param_none(params, arg_name@); }
                    }
                },
                None => {
                    let ghost c0 = positional_cursor as int;
                    while positional_cursor < n && ordered[positional_cursor].is_some()
                        invariant
                            c0 <= positional_cursor <= n,
                            ordered@.len() == n,
                            skip_filled(ordered@, positional_cursor as int) == skip_filled(ordered@, c0),
                        decreases n - positional_cursor,
                    {
                        positional_cursor = positional_cursor + 1;
                    }
                    if positional_cursor < n {
                        ordered.set(positional_cursor, Some(value));
                        positional_cursor = positional_cursor + 1;
                    }
                },
            }
            proof {
                lemma_place_args_len(params, av.take(a + 1));
            }
            a = a + 1;
        }
        proof {
            assert(av.take(args@.len() as int) =~= av);
        }
        ordered
    }

    fn report(&mut self, code: DiagnosticCode, message: &str, span: SourceSpan, label: &str)
        ensures
            final(self).diagnostics@.len() == old(self).diagnostics@.len() + 1,
            final(self).diagnostics@.drop_last() == old(self).diagnostics@,
            is_report(final(self).diagnostics@.last(), code, message@, old(self).source_file_path@, span, label@),
            final(self).function == old(self).function,
            final(self).next_value == old(self).next_value,
            final(self).value_types == old(self).value_types,
            final(self).value_defs == old(self).value_defs,
            final(self).locals == old(self).locals,
            final(self).loop_stack == old(self).loop_stack,
            final(self).same_tables(old(self)),
    {
        let d = Diagnostic::error(DiagnosticPhase::Mir, code, string_from_str(message))
            .with_primary_file_label(self.source_file_path.clone(), Some(span), string_from_str(label));
        self.diagnostics.push(d);
        assert(self.diagnostics@.drop_last() =~= old(self).diagnostics@);
    }

    /// Reports, at `span`, a `comp` expression that could not be evaluated.
    pub fn report_comptime_eval_failure(&mut self, span: SourceSpan)
        ensures
            final(self).diagnostics@.drop_last() == old(self).diagnostics@,
            final(self).diagnostics@.len() == old(self).diagnostics@.len() + 1,
            is_report(final(self).diagnostics@.last(), DiagnosticCode::E4009,
                "comptime expression must be compile-time evaluable"@, old(self).source_file_path@, span,
                "this `comp` expression could not be evaluated at compile time"@),
            final(self).function == old(self).function,
            final(self).next_value == old(self).next_value,
            final(self).locals == old(self).locals,
            final(self).value_types == old(self).value_types,
            final(self).value_defs == old(self).value_defs,
            final(self).loop_stack == old(self).loop_stack,
            final(self).same_tables(old(self)),
    {
        self.report(DiagnosticCode::E4009, "comptime expression must be compile-time evaluable", span,
            "this `comp` expression could not be evaluated at compile time");
    }

    /// Reports, at `span`, an inline call that could not be lowered.
    pub fn report_inline_call_lowering_failure(&mut self, span: SourceSpan)
        ensures
            final(self).diagnostics@.drop_last() == old(self).diagnostics@,
            final(self).diagnostics@.len() == old(self).diagnostics@.len() + 1,
            is_report(final(self).diagnostics@.last(), DiagnosticCode::E4010, "inline call could not be lowered"@,
                old(self).source_file_path@, span, "use a direct call to an inline-lowerable function body"@),
            final(self).function == old(self).function,
            final(self).next_value == old(self).next_value,
            final(self).locals == old(self).locals,
            final(self).value_types == old(self).value_types,
            final(self).value_defs == old(self).value_defs,
            final(self).loop_stack == old(self).loop_stack,
            final(self).same_tables(old(self)),
    {
        self.report(DiagnosticCode::E4010, "inline call could not be lowered", span,
            "use a direct call to an inline-lowerable function body");
    }

    /// Reports, at `span`, an inline `for` whose bounds are not known at
    /// compile time.
    pub fn report_inline_range_requires_comptime_bounds(&mut self, span: SourceSpan)
        ensures
            final(self).diagnostics@.drop_last() == old(self).diagnostics@,
            final(self).diagnostics@.len() == old(self).diagnostics@.len() + 1,
            is_report(final(self).diagnostics@.last(), DiagnosticCode::E4011, "inline for requires compile-time range bounds"@,
                old(self).source_file_path@, span, "use literals or comptime-evaluable bound expressions"@),
            final(self).function == old(self).function,
            final(self).next_value == old(self).next_value,
            final(self).locals == old(self).locals,
            final(self).value_types == old(self).value_types,
            final(self).value_defs == old(self).value_defs,
            final(self).loop_stack == old(self).loop_stack,
            final(self).same_tables(old(self)),
    {
        self.report(DiagnosticCode::E4011, "inline for requires compile-time range bounds", span,
            "use literals or comptime-evaluable bound expressions");
    }

    /// Reports, at `span`, an expression that cannot be inlined.
    pub fn report_unsupported_inline_expression(&mut self, span: SourceSpan)
        ensures
            final(self).diagnostics@.drop_last() == old(self).diagnostics@,
            final(self).diagnostics@.len() == old(self).diagnostics@.len() + 1,
            is_report(final(self).diagnostics@.last(), DiagnosticCode::E4012, "unsupported inline expression"@,
                old(self).source_file_path@, span,
                "inline currently supports range loops, direct calls, and function literals"@),
            final(self).function == old(self).function,
            final(self).next_value == old(self).next_value,
            final(self).locals == old(self).locals,
            final(self).value_types == old(self).value_types,
            final(self).value_defs == old(self).value_defs,
            final(self).loop_stack == old(self).loop_stack,
            final(self).same_tables(old(self)),
    {
        self.report(DiagnosticCode::E4012, "unsupported inline expression", span,
            "inline currently supports range loops, direct calls, and function literals");
    }

    /// Whether a call is a call of `print` or `println`: by the name it was
    /// resolved to, or by the callee's own name or accessed field.
    pub fn is_format_print_call(&self, callee: &HirExpr, resolved_name: Option<&str>) -> (r: bool)
        ensures
            r == ((resolved_name matches Some(n) && is_print_name(n@)) || match callee.kind {
                HirExprKind::Ident(n) => is_print_name(n@),
                HirExprKind::FieldAccess { field, .. } => is_print_name(field@),
                _ => false,
            }),
    {
        match resolved_name {
            Some(name) => {
                if is_print_name_str(name) {
                    return true;
                }
            },
            None => {},
        }
        match &callee.kind {
            HirExprKind::Ident(name) => is_print_name_str(name.as_str()),
            HirExprKind::FieldAccess { field, .. } => is_print_name_str(field.as_str()),
            _ => false,
        }
    }

    /// The elements of `value` when it is tuple-like: it has recorded
    /// elements and recorded fields, as many of each, and field `__i` is
    /// element `i` for each `i`.
    pub open spec fn tuple_like_of(&self, value: MirValueId) -> Option<Seq<MirValueId>> {
        match (self.aggregate_of(value), self.fields_of(value)) {
            (Some(sq), Some(fs)) => if fs.len() == sq.len() && forall|i: int| 0 <= i < sq.len() ==> assoc_find(fs,
                seq!['_', '_'] + spec_decimal(i as nat)) == Some(#[trigger] sq[i]) {
                Some(sq)
            } else {
                None
            },
            _ => None,
        }
    }

    /// The elements of `value` when it is a tuple-like aggregate.
    pub fn tuple_like_aggregate_values(&self, value: MirValueId) -> (r: Option<Vec<MirValueId>>)
        ensures
            match self.tuple_like_of(value) {
                Some(sq) => r matches Some(v) && v@ == sq,
                None => r is None,
            },
    {
        let ai = match self.find_aggregate(value) {
            Some(i) => i,
            None => {
                return None;
            },
        };
        let fi = match self.find_struct_fields(value) {
            Some(i) => i,
            None => {
                return None;
            },
        };
        let sequence = &self.aggregate_sequences[ai].1;
        let fields = &self.struct_fields[fi].1;
        if fields.len() != sequence.len() {
            return None;
        }
        let mut index: usize = 0;
        while index < sequence.len()
            invariant
                index <= sequence@.len(),
                fields@.len() == sequence@.len(),
                self.aggregate_of(value) == Some(sequence@),
                self.fields_of(value) == Some(fields@),
                forall|i: int| 0 <= i < index ==> assoc_find(fields@, seq!['_', '_'] + spec_decimal(i as nat)) == Some(#[trigger] sequence@[i]),
            decreases sequence.len() - index,
        {
            let mut key = string_from_str("__");
            push_decimal(&mut key, index as u64);
            proof {
                reveal_strlit("__");
                assert(key@ =~= seq!['_', '_'] + spec_decimal(index as nat));
            }
            match find_name(fields, key.as_str()) {
                Some(j) => {
                    if fields[j].1.0 != sequence[index].0 {
                        proof {
                            assert(assoc_find(fields@, seq!['_', '_'] + spec_decimal(index as nat)) != Some(sequence@[index as int]));
                        }
                        return None;
                    }
                },
                None => {
                    proof {
                        assert(assoc_find(fields@, seq!['_', '_'] + spec_decimal(index as nat)) != Some(sequence@[index as int]));
                    }
                    return None;
                },
            }
            index = index + 1;
        }
        let mut out: Vec<MirValueId> = Vec::new();
        let mut k: usize = 0;
        while k < sequence.len()
            invariant
                k <= sequence@.len(),
                out@ == sequence@.take(k as int),
            decreases sequence.len() - k,
        {
            out.push(sequence[k]);
            k = k + 1;
            assert(out@ =~= sequence@.take(k as int));
        }
        assert(sequence@.take(sequence@.len() as int) =~= sequence@);
        Some(out)
    }
}

/// Every block of `f` has a terminator.
pub open spec fn all_terminated(f: MirFunction) -> bool {
    forall|b: int| 0 <= b < f.blocks@.len() ==> (#[trigger] f.blocks@[b]).terminator is Some
}

/// Every phi of `f` has at least one source.
pub open spec fn phis_have_sources(f: MirFunction) -> bool {
    forall|b: int, k: int| valid_pos(f, b, k) ==> phi_sources_of(#[trigger] f.blocks@[b].instructions@[k]).len() > 0
        || f.blocks@[b].instructions@[k] is Eval
}

proof fn lemma_defs_before_origin(f: MirFunction, n: int, i: int)
    requires
        0 <= n <= f.blocks@.len(),
        0 <= i < defs_before(f.blocks@, n).len(),
    ensures
        exists|b: int, k: int| 0 <= b < n && valid_pos(f, b, k) && defs_before(f.blocks@, n)[i] == #[trigger] def_at(f, b, k),
    decreases n,
{
    let prev = defs_before(f.blocks@, n - 1);
    let last = block_defs(f.blocks@[n - 1]);
    assert(defs_before(f.blocks@, n) == prev + last);
    if i < prev.len() {
        lemma_defs_before_origin(f, n - 1, i);
        let (b, k) = choose|b: int, k: int| 0 <= b < n - 1 && valid_pos(f, b, k) && prev[i] == #[trigger] def_at(f, b, k);
        assert(defs_before(f.blocks@, n)[i] == def_at(f, b, k));
    } else {
        let k = i - prev.len();
        assert(defs_before(f.blocks@, n)[i] == last[k]);
        assert(last[k] == def_at(f, n - 1, k));
    }
}

proof fn lemma_defs_before_distinct(f: MirFunction, n: int)
    requires
        0 <= n <= f.blocks@.len(),
        defs_distinct(f),
    ensures
        !has_duplicate_def(defs_before(f.blocks@, n)),
    decreases n,
{
    if n > 0 {
        lemma_defs_before_distinct(f, n - 1);
        let prev = defs_before(f.blocks@, n - 1);
        let last = block_defs(f.blocks@[n - 1]);
        let all = defs_before(f.blocks@, n);
        assert(all == prev + last);
        assert forall|i: int, j: int| 0 <= i < j < all.len() implies all[i].0 != all[j].0 by {
            if j < prev.len() {
                assert(all[i] == prev[i] && all[j] == prev[j]);
            } else if i >= prev.len() {
                let ki = i - prev.len();
                let kj = j - prev.len();
                assert(all[i] == def_at(f, n - 1, ki));
                assert(all[j] == def_at(f, n - 1, kj));
                assert(valid_pos(f, n - 1, ki) && valid_pos(f, n - 1, kj));
            } else {
                lemma_defs_before_origin(f, n - 1, i);
                let (b, k) = choose|b: int, k: int| 0 <= b < n - 1 && valid_pos(f, b, k) && prev[i] == #[trigger] def_at(f, b, k);
                let kj = j - prev.len();
                assert(all[i] == def_at(f, b, k));
                assert(all[j] == def_at(f, n - 1, kj));
                assert(valid_pos(f, n - 1, kj));
            }
        }
    }
}

/// A function built through a consistent lowering state, once every block
/// is terminated and every phi has a source, has no structural fault (the
/// faults that MIR verification reports as E5001) and defines no value
/// twice.
pub proof fn lemma_lowered_function_structurally_sound(l: FunctionLowerer)
    requires
        l.wf(),
        all_terminated(l.function),
        phis_have_sources(l.function),
    ensures
        !structure_error(l.function),
        !has_duplicate_def(fn_defs(l.function)),
{
    let f = l.function;
    assert forall|b: int| 0 <= b < f.blocks@.len() implies !#[trigger] crate::mir_verify::block_structure_error(f, b) by {
        assert(f.blocks@[b].terminator is Some);
        assert(jumps_within(f.blocks@[b].terminator, f.blocks@.len()));
        assert(f.blocks@[b].id.0 == b);
        assert forall|k: int| 0 <= k < f.blocks@[b].instructions@.len() && (#[trigger] f.blocks@[b].instructions@[k]) is Phi
            implies phi_sources_of(f.blocks@[b].instructions@[k]).len() != 0 by {
            assert(valid_pos(f, b, k));
        }
    }
    lemma_defs_before_distinct(f, f.blocks@.len() as int);
}

/// Restoring the binding that `save_local_binding` returned undoes the
/// save: every local is bound as it was before. `saved` is bound, and
/// `restored` restored, as those functions' contracts state.
pub proof fn lemma_restore_undoes_save(
    before: FunctionLowerer,
    saved: FunctionLowerer,
    restored: FunctionLowerer,
    name: Seq<char>,
    value: MirValueId,
    entry: (String, Option<MirValueId>),
)
    requires
        entry.0@ == name,
        entry.1 == before.local(name),
        forall|x: Seq<char>| #[trigger] saved.local(x) == if x == name { Some(value) } else { before.local(x) },
        forall|x: Seq<char>| #[trigger] restored.local(x) == if x == entry.0@ { entry.1 } else { saved.local(x) },
    ensures
        forall|x: Seq<char>| #[trigger] restored.local(x) == before.local(x),
{
    assert forall|x: Seq<char>| #[trigger] restored.local(x) == before.local(x) by {
        assert(saved.local(x) == if x == name { Some(value) } else { before.local(x) });
    }
}

} // verus!
