//! Structural analyses of HIR expressions used when lowering functions:
//! control flow that forbids inlining, assigned and free variables,
//! compile-time pattern matching, and function naming.

use vstd::prelude::*;
use crate::hir::{HirCallArg, HirExpr, HirExprKind, HirForExpr, HirMatchArm, HirLiteral, HirLiteralView, HirPattern};
use crate::ast::{AssignOp, BinaryOp};
use crate::mir::MirValueType;
use crate::module_resolver::{ModuleId, ModuleKey, join_components};
use crate::lower_helpers::{
    ComptimeValue, ComptimeValueView, enum_type_repr_bits, enum_type_variants, parse_type_hint_text,
    spec_enum_type_variants, spec_parse_enum_descriptor, spec_parse_type_hint,
};
use crate::text::{
    chars_of, eq_str, find_first_char, last_occurrence, push_decimal, push_str, push_string, rfind_last,
    spec_decimal, spec_find_char, spec_trim, string_eq, string_push, subvec, trim,
};

verus! {

/// The expression, or one nested in it, breaks, continues, returns or defers.
pub open spec fn spec_contains_disallowed_flow(expr: HirExpr) -> bool
    decreases expr,
{
    match expr.kind {
        HirExprKind::Break { .. } | HirExprKind::Continue | HirExprKind::Return { .. } | HirExprKind::Defer { .. } => true,
        HirExprKind::Unary { expr, .. } => spec_contains_disallowed_flow(*expr),
        HirExprKind::DerefAccess { base } => spec_contains_disallowed_flow(*base),
        HirExprKind::OptionalUnwrap { value } => spec_contains_disallowed_flow(*value),
        HirExprKind::ErrorUnwrap { value } => spec_contains_disallowed_flow(*value),
        HirExprKind::Comptime { expr } => spec_contains_disallowed_flow(*expr),
        HirExprKind::Inline { expr } => spec_contains_disallowed_flow(*expr),
        HirExprKind::Binary { left, right, .. } => spec_contains_disallowed_flow(*left) || spec_contains_disallowed_flow(*right),
        HirExprKind::Assign { target, value, .. } => spec_contains_disallowed_flow(*target) || spec_contains_disallowed_flow(*value),
        HirExprKind::Index { base, index } => spec_contains_disallowed_flow(*base) || spec_contains_disallowed_flow(*index),
        HirExprKind::Call { callee, args } => spec_contains_disallowed_flow(*callee) || args_contain_disallowed_flow(args@),
        HirExprKind::FieldAccess { base, .. } => spec_contains_disallowed_flow(*base),
        HirExprKind::Slice { base, start, end, .. } => spec_contains_disallowed_flow(*base)
            || (match start { Some(e) => spec_contains_disallowed_flow(*e), None => false })
            || (match end { Some(e) => spec_contains_disallowed_flow(*e), None => false }),
        HirExprKind::StructLiteral { fields, .. } => fields_contain_disallowed_flow(fields@),
        HirExprKind::EnumVariant { payload, .. } => exprs_contain_disallowed_flow(payload@),
        HirExprKind::Block { body } => exprs_contain_disallowed_flow(body@),
        HirExprKind::Let { value, .. } => spec_contains_disallowed_flow(*value),
        HirExprKind::If { condition, then_branch, else_branch, .. } => spec_contains_disallowed_flow(*condition)
            || spec_contains_disallowed_flow(*then_branch)
            || (match else_branch { Some(e) => spec_contains_disallowed_flow(*e), None => false }),
        HirExprKind::Match { value, arms } => spec_contains_disallowed_flow(*value) || arms_contain_disallowed_flow(arms@),
        HirExprKind::For(f) => match f {
            HirForExpr::Infinite { body } => spec_contains_disallowed_flow(*body),
            HirForExpr::WhileLike { condition, body } => spec_contains_disallowed_flow(*condition)
                || spec_contains_disallowed_flow(*body),
            HirForExpr::Iterate { iterable, body, .. } => spec_contains_disallowed_flow(*iterable)
                || spec_contains_disallowed_flow(*body),
            HirForExpr::Range { start, end, body, .. } => spec_contains_disallowed_flow(*start)
                || spec_contains_disallowed_flow(*end) || spec_contains_disallowed_flow(*body),
        },
        HirExprKind::OrElse { value, fallback, .. } => spec_contains_disallowed_flow(*value)
            || spec_contains_disallowed_flow(*fallback),
        HirExprKind::Function { body, .. } => spec_contains_disallowed_flow(*body),
        HirExprKind::Use { .. } | HirExprKind::TypeLiteral(_) | HirExprKind::Unknown | HirExprKind::Literal(_)
        | HirExprKind::Ident(_) => false,
    }
}

/// Some expression of the sequence contains disallowed flow.
pub open spec fn exprs_contain_disallowed_flow(s: Seq<HirExpr>) -> bool
    decreases s,
{
    if s.len() == 0 {
        false
    } else {
        exprs_contain_disallowed_flow(s.drop_last()) || spec_contains_disallowed_flow(s.last())
    }
}

/// Some argument of the sequence contains disallowed flow.
pub open spec fn args_contain_disallowed_flow(s: Seq<HirCallArg>) -> bool
    decreases s,
{
    if s.len() == 0 {
        false
    } else {
        args_contain_disallowed_flow(s.drop_last()) || spec_contains_disallowed_flow(s.last().value)
    }
}

/// Some field value of the sequence contains disallowed flow.
pub open spec fn fields_contain_disallowed_flow(s: Seq<(String, HirExpr)>) -> bool
    decreases s,
{
    if s.len() == 0 {
        false
    } else {
        fields_contain_disallowed_flow(s.drop_last()) || spec_contains_disallowed_flow(s.last().1)
    }
}

/// Some arm's guard or value contains disallowed flow.
pub open spec fn arms_contain_disallowed_flow(s: Seq<HirMatchArm>) -> bool
    decreases s,
{
    if s.len() == 0 {
        false
    } else {
        arms_contain_disallowed_flow(s.drop_last())
            || (match s.last().guard { Some(g) => spec_contains_disallowed_flow(g), None => false })
            || spec_contains_disallowed_flow(s.last().value)
    }
}

/// The expression breaks, continues, returns or defers.
pub open spec fn is_flow_kind(e: HirExpr) -> bool {
    e.kind is Break || e.kind is Continue || e.kind is Return || e.kind is Defer
}

/// The guards and values of match arms, arm by arm.
pub open spec fn arm_parts(s: Seq<HirMatchArm>) -> Seq<HirExpr>
    decreases s.len(),
{
    if s.len() == 0 {
        Seq::empty()
    } else {
        arm_parts(s.drop_last()) + (match s.last().guard {
            Some(g) => seq![g],
            None => Seq::empty(),
        }) + seq![s.last().value]
    }
}

/// The expressions directly nested in `e` that the inlining check looks
/// into: every child expression except a function's parameter defaults.
pub open spec fn flow_children(e: HirExpr) -> Seq<HirExpr> {
    match e.kind {
        HirExprKind::Unary { expr, .. } => seq![*expr],
        HirExprKind::DerefAccess { base } => seq![*base],
        HirExprKind::OptionalUnwrap { value } => seq![*value],
        HirExprKind::ErrorUnwrap { value } => seq![*value],
        HirExprKind::Comptime { expr } => seq![*expr],
        HirExprKind::Inline { expr } => seq![*expr],
        HirExprKind::Binary { left, right, .. } => seq![*left, *right],
        HirExprKind::Assign { target, value, .. } => seq![*target, *value],
        HirExprKind::Index { base, index } => seq![*base, *index],
        HirExprKind::Call { callee, args } => seq![*callee] + args@.map_values(|a: HirCallArg| a.value),
        HirExprKind::FieldAccess { base, .. } => seq![*base],
        HirExprKind::Slice { base, start, end, .. } => seq![*base] + (match start {
            Some(x) => seq![*x],
            None => Seq::empty(),
        }) + (match end {
            Some(x) => seq![*x],
            None => Seq::empty(),
        }),
        HirExprKind::StructLiteral { fields, .. } => fields@.map_values(|f: (String, HirExpr)| f.1),
        HirExprKind::EnumVariant { payload, .. } => payload@,
        HirExprKind::Block { body } => body@,
        HirExprKind::Let { value, .. } => seq![*value],
        HirExprKind::If { condition, then_branch, else_branch, .. } => seq![*condition, *then_branch] + (match else_branch {
            Some(x) => seq![*x],
            None => Seq::empty(),
        }),
        HirExprKind::Match { value, arms } => seq![*value] + arm_parts(arms@),
        HirExprKind::For(f) => match f {
            HirForExpr::Infinite { body } => seq![*body],
            HirForExpr::WhileLike { condition, body } => seq![*condition, *body],
            HirForExpr::Iterate { iterable, body, .. } => seq![*iterable, *body],
            HirForExpr::Range { start, end, body, .. } => seq![*start, *end, *body],
        },
        HirExprKind::OrElse { value, fallback, .. } => seq![*value, *fallback],
        HirExprKind::Function { body, .. } => seq![*body],
        _ => Seq::empty(),
    }
}

proof fn lemma_exprs_flow(s: Seq<HirExpr>)
    ensures
        exprs_contain_disallowed_flow(s) == exists|i: int| 0 <= i < s.len() && spec_contains_disallowed_flow(#[trigger] s[i]),
    decreases s.len(),
{
    if s.len() > 0 {
        lemma_exprs_flow(s.drop_last());
        if exists|i: int| 0 <= i < s.len() && spec_contains_disallowed_flow(#[trigger] s[i]) {
            let i = choose|i: int| 0 <= i < s.len() && spec_contains_disallowed_flow(#[trigger] s[i]);
            if i < s.len() - 1 {
                assert(s.drop_last()[i] == s[i]);
            }
        }
        if exists|i: int| 0 <= i < s.len() - 1 && spec_contains_disallowed_flow(#[trigger] s.drop_last()[i]) {
            let i = choose|i: int| 0 <= i < s.len() - 1 && spec_contains_disallowed_flow(#[trigger] s.drop_last()[i]);
            assert(s[i] == s.drop_last()[i]);
        }
    }
}

proof fn lemma_args_flow(s: Seq<HirCallArg>)
    ensures
        args_contain_disallowed_flow(s) == exprs_contain_disallowed_flow(s.map_values(|a: HirCallArg| a.value)),
    decreases s.len(),
{
    if s.len() > 0 {
        lemma_args_flow(s.drop_last());
        assert(s.map_values(|a: HirCallArg| a.value).drop_last() =~= s.drop_last().map_values(|a: HirCallArg| a.value));
    }
}

proof fn lemma_fields_flow(s: Seq<(String, HirExpr)>)
    ensures
        fields_contain_disallowed_flow(s) == exprs_contain_disallowed_flow(s.map_values(|f: (String, HirExpr)| f.1)),
    decreases s.len(),
{
    if s.len() > 0 {
        lemma_fields_flow(s.drop_last());
        assert(s.map_values(|f: (String, HirExpr)| f.1).drop_last() =~= s.drop_last().map_values(|f: (String, HirExpr)| f.1));
    }
}

proof fn lemma_exprs_flow_concat(a: Seq<HirExpr>, b: Seq<HirExpr>)
    ensures
        exprs_contain_disallowed_flow(a + b) == (exprs_contain_disallowed_flow(a) || exprs_contain_disallowed_flow(b)),
{
    lemma_exprs_flow(a);
    lemma_exprs_flow(b);
    lemma_exprs_flow(a + b);
    if exists|i: int| 0 <= i < (a + b).len() && spec_contains_disallowed_flow(#[trigger] (a + b)[i]) {
        let i = choose|i: int| 0 <= i < (a + b).len() && spec_contains_disallowed_flow(#[trigger] (a + b)[i]);
        if i < a.len() {
            assert((a + b)[i] == a[i]);
        } else {
            assert((a + b)[i] == b[i - a.len()]);
        }
    }
    if exists|i: int| 0 <= i < a.len() && spec_contains_disallowed_flow(#[trigger] a[i]) {
        let i = choose|i: int| 0 <= i < a.len() && spec_contains_disallowed_flow(#[trigger] a[i]);
        assert((a + b)[i] == a[i]);
    }
    if exists|i: int| 0 <= i < b.len() && spec_contains_disallowed_flow(#[trigger] b[i]) {
        let i = choose|i: int| 0 <= i < b.len() && spec_contains_disallowed_flow(#[trigger] b[i]);
        assert((a + b)[a.len() + i] == b[i]);
    }
}

proof fn lemma_arms_flow(s: Seq<HirMatchArm>)
    ensures
        arms_contain_disallowed_flow(s) == exprs_contain_disallowed_flow(arm_parts(s)),
    decreases s.len(),
{
    if s.len() > 0 {
        lemma_arms_flow(s.drop_last());
        let g: Seq<HirExpr> = match s.last().guard {
            Some(g) => seq![g],
            None => Seq::empty(),
        };
        lemma_exprs_flow_concat(arm_parts(s.drop_last()), g);
        lemma_exprs_flow_concat(arm_parts(s.drop_last()) + g, seq![s.last().value]);
        lemma_exprs_flow(g);
        lemma_exprs_flow(seq![s.last().value]);
    }
}

/// An expression holds disallowed inline flow exactly when it breaks,
/// continues, returns or defers itself, or one of the expressions nested in
/// it (its children, apart from a function's parameter defaults) holds it;
/// so, by induction, exactly when some expression within it, at any depth,
/// is of one of those four kinds.
pub proof fn lemma_disallowed_flow_is_a_nested_flow_expression(e: HirExpr)
    ensures
        spec_contains_disallowed_flow(e) == (is_flow_kind(e) || exists|i: int| 0 <= i < flow_children(e).len()
            && spec_contains_disallowed_flow(#[trigger] flow_children(e)[i])),
{
    let c = flow_children(e);
    lemma_exprs_flow(c);
    match e.kind {
        HirExprKind::Call { callee, args } => {
            lemma_args_flow(args@);
            lemma_exprs_flow_concat(seq![*callee], args@.map_values(|a: HirCallArg| a.value));
            lemma_exprs_flow(seq![*callee]);
        },
        HirExprKind::Slice { base, start, end, .. } => {
            let s1: Seq<HirExpr> = match start {
                Some(x) => seq![*x],
                None => Seq::empty(),
            };
            let s2: Seq<HirExpr> = match end {
                Some(x) => seq![*x],
                None => Seq::empty(),
            };
            lemma_exprs_flow_concat(seq![*base], s1);
            lemma_exprs_flow_concat(seq![*base] + s1, s2);
            lemma_exprs_flow(seq![*base]);
            lemma_exprs_flow(s1);
            lemma_exprs_flow(s2);
        },
        HirExprKind::StructLiteral { fields, .. } => {
            lemma_fields_flow(fields@);
        },
        HirExprKind::If { condition, then_branch, else_branch, .. } => {
            let s1: Seq<HirExpr> = match else_branch {
                Some(x) => seq![*x],
                None => Seq::empty(),
            };
            lemma_exprs_flow_concat(seq![*condition, *then_branch], s1);
            lemma_exprs_flow(seq![*condition, *then_branch]);
            lemma_exprs_flow(s1);
        },
        HirExprKind::Match { value, arms } => {
            lemma_arms_flow(arms@);
            lemma_exprs_flow_concat(seq![*value], arm_parts(arms@));
            lemma_exprs_flow(seq![*value]);
        },
        _ => {},
    }
}

/// The expression reached from `e` by following `path`: each step picks, by
/// position, one of the children that the inlining check looks into.
pub open spec fn flow_sub_at(e: HirExpr, path: Seq<int>) -> Option<HirExpr>
    decreases path.len(),
{
    if path.len() == 0 {
        Some(e)
    } else if 0 <= path[0] < flow_children(e).len() {
        flow_sub_at(flow_children(e)[path[0]], path.drop_first())
    } else {
        None
    }
}

/// Following `path` from `e` reaches a break, continue, return or defer.
pub open spec fn flow_path_reaches(e: HirExpr, path: Seq<int>) -> bool {
    flow_sub_at(e, path) matches Some(d) && is_flow_kind(d)
}

proof fn lemma_flow_sub_step(e: HirExpr, i: int, q: Seq<int>)
    requires
        0 <= i < flow_children(e).len(),
    ensures
        flow_sub_at(e, seq![i] + q) == flow_sub_at(flow_children(e)[i], q),
{
    assert((seq![i] + q)[0] == i);
    assert((seq![i] + q).drop_first() =~= q);
}

proof fn lemma_flow_path_sound(e: HirExpr, path: Seq<int>)
    requires
        flow_path_reaches(e, path),
    ensures
        spec_contains_disallowed_flow(e),
    decreases path.len(),
{
    lemma_disallowed_flow_is_a_nested_flow_expression(e);
    if path.len() > 0 {
        let c = flow_children(e);
        lemma_flow_path_sound(c[path[0]], path.drop_first());
    }
}

proof fn flow_path_in_exprs(s: Seq<HirExpr>) -> (r: (int, Seq<int>))
    requires
        exprs_contain_disallowed_flow(s),
    ensures
        0 <= r.0 < s.len(),
        flow_path_reaches(s[r.0], r.1),
    decreases s,
{
    if exprs_contain_disallowed_flow(s.drop_last()) {
        let (j, q) = flow_path_in_exprs(s.drop_last());
        assert(s[j] == s.drop_last()[j]);
        (j, q)
    } else {
        (s.len() - 1, flow_path(s.last()))
    }
}

proof fn flow_path_in_args(s: Seq<HirCallArg>) -> (r: (int, Seq<int>))
    requires
        args_contain_disallowed_flow(s),
    ensures
        0 <= r.0 < s.len(),
        flow_path_reaches(s[r.0].value, r.1),
    decreases s,
{
    if args_contain_disallowed_flow(s.drop_last()) {
        let (j, q) = flow_path_in_args(s.drop_last());
        assert(s[j] == s.drop_last()[j]);
        (j, q)
    } else {
        (s.len() - 1, flow_path(s.last().value))
    }
}

proof fn flow_path_in_fields(s: Seq<(String, HirExpr)>) -> (r: (int, Seq<int>))
    requires
        fields_contain_disallowed_flow(s),
    ensures
        0 <= r.0 < s.len(),
        flow_path_reaches(s[r.0].1, r.1),
    decreases s,
{
    if fields_contain_disallowed_flow(s.drop_last()) {
        let (j, q) = flow_path_in_fields(s.drop_last());
        assert(s[j] == s.drop_last()[j]);
        (j, q)
    } else {
        (s.len() - 1, flow_path(s.last().1))
    }
}

proof fn flow_path_in_arms(s: Seq<HirMatchArm>) -> (r: (int, Seq<int>))
    requires
        arms_contain_disallowed_flow(s),
    ensures
        0 <= r.0 < arm_parts(s).len(),
        flow_path_reaches(arm_parts(s)[r.0], r.1),
    decreases s,
{
    let pre = arm_parts(s.drop_last());
    let g: Seq<HirExpr> = match s.last().guard {
        Some(x) => seq![x],
        None => Seq::empty(),
    };
    assert(arm_parts(s) == pre + g + seq![s.last().value]);
    if arms_contain_disallowed_flow(s.drop_last()) {
        let (j, q) = flow_path_in_arms(s.drop_last());
        assert(arm_parts(s)[j] == pre[j]);
        (j, q)
    } else if s.last().guard is Some && spec_contains_disallowed_flow(s.last().guard->0) {
        assert(arm_parts(s)[pre.len() as int] == s.last().guard->0);
        (pre.len() as int, flow_path(s.last().guard->0))
    } else {
        assert(arm_parts(s)[(pre.len() + g.len()) as int] == s.last().value);
        ((pre.len() + g.len()) as int, flow_path(s.last().value))
    }
}

/// A path from `e` to one of its flow expressions, when it holds one.
proof fn flow_path(e: HirExpr) -> (p: Seq<int>)
    requires
        spec_contains_disallowed_flow(e),
    ensures
        flow_path_reaches(e, p),
    decreases e,
{
    if is_flow_kind(e) {
        return Seq::empty();
    }
    let c = flow_children(e);
    let (i, q): (int, Seq<int>) = match e.kind {
        HirExprKind::Unary { expr, .. } => (0, flow_path(*expr)),
        HirExprKind::DerefAccess { base } => (0, flow_path(*base)),
        HirExprKind::OptionalUnwrap { value } => (0, flow_path(*value)),
        HirExprKind::ErrorUnwrap { value } => (0, flow_path(*value)),
        HirExprKind::Comptime { expr } => (0, flow_path(*expr)),
        HirExprKind::Inline { expr } => (0, flow_path(*expr)),
        HirExprKind::FieldAccess { base, .. } => (0, flow_path(*base)),
        HirExprKind::Let { value, .. } => (0, flow_path(*value)),
        HirExprKind::Function { body, .. } => (0, flow_path(*body)),
        HirExprKind::Binary { left, right, .. } => if spec_contains_disallowed_flow(*left) {
            (0, flow_path(*left))
        } else {
            (1, flow_path(*right))
        },
        HirExprKind::Assign { target, value, .. } => if spec_contains_disallowed_flow(*target) {
            (0, flow_path(*target))
        } else {
            (1, flow_path(*value))
        },
        HirExprKind::Index { base, index } => if spec_contains_disallowed_flow(*base) {
            (0, flow_path(*base))
        } else {
            (1, flow_path(*index))
        },
        HirExprKind::OrElse { value, fallback, .. } => if spec_contains_disallowed_flow(*value) {
            (0, flow_path(*value))
        } else {
            (1, flow_path(*fallback))
        },
        HirExprKind::Call { callee, args } => if spec_contains_disallowed_flow(*callee) {
            (0, flow_path(*callee))
        } else {
            let (j, q) = flow_path_in_args(args@);
            assert(c[1 + j] == args@[j].value);
            (1 + j, q)
        },
        HirExprKind::Slice { base, start, end, .. } => {
            let s1: Seq<HirExpr> = match start { Some(x) => seq![*x], None => Seq::empty() };
            if spec_contains_disallowed_flow(*base) {
                (0, flow_path(*base))
            } else if start is Some && spec_contains_disallowed_flow(*start->0) {
                assert(c[1] == *start->0);
                (1, flow_path(*start->0))
            } else {
                let x = *end->0;
                assert(c[1 + s1.len() as int] == x);
                ((1 + s1.len()) as int, flow_path(x))
            }
        },
        HirExprKind::StructLiteral { fields, .. } => {
            let (j, q) = flow_path_in_fields(fields@);
            assert(c[j] == fields@[j].1);
            (j, q)
        },
        HirExprKind::EnumVariant { payload, .. } => flow_path_in_exprs(payload@),
        HirExprKind::Block { body } => flow_path_in_exprs(body@),
        HirExprKind::If { condition, then_branch, else_branch, .. } => if spec_contains_disallowed_flow(*condition) {
            (0, flow_path(*condition))
        } else if spec_contains_disallowed_flow(*then_branch) {
            (1, flow_path(*then_branch))
        } else {
            let x = *else_branch->0;
            assert(c[2] == x);
            (2, flow_path(x))
        },
        HirExprKind::Match { value, arms } => if spec_contains_disallowed_flow(*value) {
            (0, flow_path(*value))
        } else {
            let (j, q) = flow_path_in_arms(arms@);
            assert(c[1 + j] == arm_parts(arms@)[j]);
            (1 + j, q)
        },
        HirExprKind::For(f) => match f {
            HirForExpr::Infinite { body } => (0, flow_path(*body)),
            HirForExpr::WhileLike { condition, body } => if spec_contains_disallowed_flow(*condition) {
                (0, flow_path(*condition))
            } else {
                (1, flow_path(*body))
            },
            HirForExpr::Iterate { iterable, body, .. } => if spec_contains_disallowed_flow(*iterable) {
                (0, flow_path(*iterable))
            } else {
                (1, flow_path(*body))
            },
            HirForExpr::Range { start, end, body, .. } => if spec_contains_disallowed_flow(*start) {
                (0, flow_path(*start))
            } else if spec_contains_disallowed_flow(*end) {
                (1, flow_path(*end))
            } else {
                (2, flow_path(*body))
            },
        },
        _ => (0, Seq::empty()),
    };
    lemma_flow_sub_step(e, i, q);
    seq![i] + q
}

/// Inline flow is disallowed in an expression exactly when some expression
/// within it, at any depth (nested function bodies, match guards and loop
/// parts included, a function's parameter defaults not), breaks, continues,
/// returns or defers.
pub proof fn lemma_disallowed_flow_is_a_flow_descendant(e: HirExpr)
    ensures
        spec_contains_disallowed_flow(e) == exists|path: Seq<int>| #[trigger] flow_path_reaches(e, path),
{
    if spec_contains_disallowed_flow(e) {
        let p = flow_path(e);
        assert(flow_path_reaches(e, p));
    }
    if exists|path: Seq<int>| #[trigger] flow_path_reaches(e, path) {
        let p = choose|path: Seq<int>| #[trigger] flow_path_reaches(e, path);
        lemma_flow_path_sound(e, p);
    }
}

/// Whether the expression, or one nested in it, breaks, continues, returns or
/// defers: such a body cannot be inlined.
#[verifier::loop_isolation(false)]
pub fn contains_disallowed_inline_flow_hir(expr: &HirExpr) -> (r: bool)
    ensures
        r == spec_contains_disallowed_flow(*expr),
    decreases expr,
{
    match &expr.kind {
        HirExprKind::Break { .. } | HirExprKind::Continue | HirExprKind::Return { .. } | HirExprKind::Defer { .. } => true,
        HirExprKind::Unary { expr, .. } => contains_disallowed_inline_flow_hir(expr),
        HirExprKind::DerefAccess { base } => contains_disallowed_inline_flow_hir(base),
        HirExprKind::OptionalUnwrap { value } => contains_disallowed_inline_flow_hir(value),
        HirExprKind::ErrorUnwrap { value } => contains_disallowed_inline_flow_hir(value),
        HirExprKind::Comptime { expr } => contains_disallowed_inline_flow_hir(expr),
        HirExprKind::Inline { expr } => contains_disallowed_inline_flow_hir(expr),
        HirExprKind::Binary { left, right, .. } => contains_disallowed_inline_flow_hir(left)
            || contains_disallowed_inline_flow_hir(right),
        HirExprKind::Assign { target, value, .. } => contains_disallowed_inline_flow_hir(target)
            || contains_disallowed_inline_flow_hir(value),
        HirExprKind::Index { base, index } => contains_disallowed_inline_flow_hir(base)
            || contains_disallowed_inline_flow_hir(index),
        HirExprKind::Call { callee, args } => {
            if contains_disallowed_inline_flow_hir(callee) {
                return true;
            }
            let mut i: usize = 0;
            while i < args.len()
                invariant
                    i <= args@.len(),
                    !args_contain_disallowed_flow(args@.take(i as int)),
                decreases args.len() - i,
            {
                assert(args@.take(i + 1).drop_last() =~= args@.take(i as int));
                if contains_disallowed_inline_flow_hir(&args[i].value) {
                    proof { lemma_args_flow_prefix(args@, i as int + 1); }
                    return true;
                }
                i = i + 1;
            }
            assert(args@.take(args@.len() as int) =~= args@);
            false
        },
        HirExprKind::FieldAccess { base, .. } => contains_disallowed_inline_flow_hir(base),
        HirExprKind::Slice { base, start, end, .. } => {
            contains_disallowed_inline_flow_hir(base) || (match start {
                Some(e) => contains_disallowed_inline_flow_hir(e),
                None => false,
            }) || (match end {
                Some(e) => contains_disallowed_inline_flow_hir(e),
                None => false,
            })
        },
        HirExprKind::StructLiteral { fields, .. } => {
            let mut i: usize = 0;
            while i < fields.len()
                invariant
                    i <= fields@.len(),
                    !fields_contain_disallowed_flow(fields@.take(i as int)),
                decreases fields.len() - i,
            {
                assert(fields@.take(i + 1).drop_last() =~= fields@.take(i as int));
                if contains_disallowed_inline_flow_hir(&fields[i].1) {
                    proof { lemma_fields_flow_prefix(fields@, i as int + 1); }
                    return true;
                }
                i = i + 1;
            }
            assert(fields@.take(fields@.len() as int) =~= fields@);
            false
        },
        HirExprKind::EnumVariant { payload, .. } => exprs_disallowed(payload),
        HirExprKind::Block { body } => exprs_disallowed(body),
        HirExprKind::Let { value, .. } => contains_disallowed_inline_flow_hir(value),
        HirExprKind::If { condition, then_branch, else_branch, .. } => {
            contains_disallowed_inline_flow_hir(condition) || contains_disallowed_inline_flow_hir(then_branch)
                || (match else_branch {
                Some(e) => contains_disallowed_inline_flow_hir(e),
                None => false,
            })
        },
        HirExprKind::Match { value, arms } => {
            if contains_disallowed_inline_flow_hir(value) {
                return true;
            }
            let mut i: usize = 0;
            while i < arms.len()
                invariant
                    i <= arms@.len(),
                    !arms_contain_disallowed_flow(arms@.take(i as int)),
                decreases arms.len() - i,
            {
                assert(arms@.take(i + 1).drop_last() =~= arms@.take(i as int));
                let arm = &arms[i];
                let guard_bad = match &arm.guard {
                    Some(g) => contains_disallowed_inline_flow_hir(g),
                    None => false,
                };
                if guard_bad || contains_disallowed_inline_flow_hir(&arm.value) {
                    proof { lemma_arms_flow_prefix(arms@, i as int + 1); }
                    return true;
                }
                i = i + 1;
            }
            assert(arms@.take(arms@.len() as int) =~= arms@);
            false
        },
        HirExprKind::For(f) => match f {
            HirForExpr::Infinite { body } => contains_disallowed_inline_flow_hir(body),
            HirForExpr::WhileLike { condition, body } => contains_disallowed_inline_flow_hir(condition)
                || contains_disallowed_inline_flow_hir(body),
            HirForExpr::Iterate { iterable, body, .. } => contains_disallowed_inline_flow_hir(iterable)
                || contains_disallowed_inline_flow_hir(body),
            HirForExpr::Range { start, end, body, .. } => contains_disallowed_inline_flow_hir(start)
                || contains_disallowed_inline_flow_hir(end) || contains_disallowed_inline_flow_hir(body),
        },
        HirExprKind::OrElse { value, fallback, .. } => contains_disallowed_inline_flow_hir(value)
            || contains_disallowed_inline_flow_hir(fallback),
        HirExprKind::Function { body, .. } => contains_disallowed_inline_flow_hir(body),
        HirExprKind::Use { .. } | HirExprKind::TypeLiteral(_) | HirExprKind::Unknown | HirExprKind::Literal(_)
        | HirExprKind::Ident(_) => false,
    }
}

/// Whether some expression of `v` contains disallowed flow.
fn exprs_disallowed(v: &Vec<HirExpr>) -> (r: bool)
    ensures
        r == exprs_contain_disallowed_flow(v@),
    decreases v,
{
    let mut i: usize = 0;
    while i < v.len()
        invariant
            i <= v@.len(),
            !exprs_contain_disallowed_flow(v@.take(i as int)),
        decreases v.len() - i,
    {
        assert(v@.take(i + 1).drop_last() =~= v@.take(i as int));
        if contains_disallowed_inline_flow_hir(&v[i]) {
            proof { lemma_exprs_flow_prefix(v@, i as int + 1); }
            return true;
        }
        i = i + 1;
    }
    assert(v@.take(v@.len() as int) =~= v@);
    false
}

proof fn lemma_exprs_flow_prefix(s: Seq<HirExpr>, k: int)
    requires
        0 <= k <= s.len(),
        exprs_contain_disallowed_flow(s.take(k)),
    ensures
        exprs_contain_disallowed_flow(s),
    decreases s.len() - k,
{
    if k < s.len() {
        assert(s.take(k + 1).drop_last() =~= s.take(k));
        lemma_exprs_flow_prefix(s, k + 1);
    } else {
        assert(s.take(k) =~= s);
    }
}

proof fn lemma_args_flow_prefix(s: Seq<HirCallArg>, k: int)
    requires
        0 <= k <= s.len(),
        args_contain_disallowed_flow(s.take(k)),
    ensures
        args_contain_disallowed_flow(s),
    decreases s.len() - k,
{
    if k < s.len() {
        assert(s.take(k + 1).drop_last() =~= s.take(k));
        lemma_args_flow_prefix(s, k + 1);
    } else {
        assert(s.take(k) =~= s);
    }
}

proof fn lemma_fields_flow_prefix(s: Seq<(String, HirExpr)>, k: int)
    requires
        0 <= k <= s.len(),
        fields_contain_disallowed_flow(s.take(k)),
    ensures
        fields_contain_disallowed_flow(s),
    decreases s.len() - k,
{
    if k < s.len() {
        assert(s.take(k + 1).drop_last() =~= s.take(k));
        lemma_fields_flow_prefix(s, k + 1);
    } else {
        assert(s.take(k) =~= s);
    }
}

proof fn lemma_arms_flow_prefix(s: Seq<HirMatchArm>, k: int)
    requires
        0 <= k <= s.len(),
        arms_contain_disallowed_flow(s.take(k)),
    ensures
        arms_contain_disallowed_flow(s),
    decreases s.len() - k,
{
    if k < s.len() {
        assert(s.take(k + 1).drop_last() =~= s.take(k));
        lemma_arms_flow_prefix(s, k + 1);
    } else {
        assert(s.take(k) =~= s);
    }
}

/// Whether a function body may be inlined: it has no break, continue, return or defer.
pub fn inline_hir_body_supported(expr: &HirExpr) -> (r: bool)
    ensures
        r == !spec_contains_disallowed_flow(*expr),
{
    !contains_disallowed_inline_flow_hir(expr)
}

/// The name under which a module's function is known program-wide.
pub open spec fn spec_qualified_function_name(module_id: ModuleId, name: Seq<char>) -> Seq<char> {
    seq!['#'] + spec_decimal(module_id.0 as nat) + seq![':', ':'] + name
}

/// `#<module id>::<function name>`: the name of a module's function
/// across the whole program.
pub fn qualified_function_name(module_id: ModuleId, function_name: &str) -> (r: String)
    ensures
        r@ == spec_qualified_function_name(module_id, function_name@),
{
    let mut out = String::new();
    string_push(&mut out, '#');
    push_decimal(&mut out, module_id.0 as u64);
    string_push(&mut out, ':');
    string_push(&mut out, ':');
    push_str(&mut out, function_name);
    assert(out@ =~= spec_qualified_function_name(module_id, function_name@));
    out
}

/// The source path of a module: `<directory>/<name>.dyn`, or `<name>.dyn`
/// for a module at the project root.
pub open spec fn spec_module_source_path(key: ModuleKey) -> Seq<char> {
    let file = key.module_name@ + seq!['.', 'd', 'y', 'n'];
    if key.directory@.len() == 0 { file } else { join_components(crate::module_resolver::comps(key.directory@)) + seq!['/'] + file }
}

/// The source path of the module a key names.
pub fn module_key_source_path(key: &ModuleKey) -> (r: String)
    ensures
        r@ == spec_module_source_path(*key),
{
    let mut out = String::new();
    if key.directory.len() > 0 {
        out = key.directory_text();
        string_push(&mut out, '/');
    }
    push_string(&mut out, &key.module_name);
    push_str(&mut out, ".dyn");
    proof { reveal_strlit(".dyn"); }
    assert(out@ =~= spec_module_source_path(*key));
    out
}

/// The body ends in `value or return ...`, possibly inside nested blocks.
pub open spec fn spec_has_or_return_tail(expr: HirExpr) -> bool
    decreases expr,
{
    match expr.kind {
        HirExprKind::Block { body } => body@.len() > 0 && spec_has_or_return_tail(body@.last()),
        HirExprKind::OrElse { fallback, .. } => fallback.kind is Return,
        _ => false,
    }
}

/// Whether the body ends in `value or return ...`.
pub fn has_or_return_tail(expr: &HirExpr) -> (r: bool)
    ensures
        r == spec_has_or_return_tail(*expr),
    decreases expr,
{
    match &expr.kind {
        HirExprKind::Block { body } => {
            let n = body.len();
            if n == 0 {
                false
            } else {
                assert(body@[n - 1] == body@.last());
                has_or_return_tail(&body[n - 1])
            }
        },
        HirExprKind::OrElse { fallback, .. } => matches!(fallback.kind, HirExprKind::Return { .. }),
        _ => false,
    }
}

/// The success type of a return hint: the trimmed text before any `!`.
pub open spec fn spec_ok_type_text(hint: Seq<char>) -> Seq<char> {
    let t = spec_trim(hint);
    match spec_find_char(t, '!') {
        Some(i) => spec_trim(t.take(i)),
        None => t,
    }
}

/// The success type of a return hint.
pub fn return_hint_ok_type_text(return_hint: &Vec<char>) -> (r: Vec<char>)
    ensures
        r@ == spec_ok_type_text(return_hint@),
{
    let t = trim(return_hint);
    match find_first_char(&t, '!') {
        Some(i) => {
            let head = subvec(&t, 0, i);
            assert(head@ =~= t@.take(i as int));
            trim(&head)
        },
        None => t,
    }
}

/// The return part of a hint: the text after the last `->`, or the whole
/// hint, trimmed.
pub open spec fn spec_hint_candidate(hint: Seq<char>) -> Seq<char> {
    match last_occurrence(hint, "->"@) {
        Some(i) => spec_trim(hint.skip(i + 2)),
        None => spec_trim(hint),
    }
}

/// The return part of a hint.
pub(crate) fn hint_candidate(hint: &Vec<char>) -> (r: Vec<char>)
    ensures
        r@ == spec_hint_candidate(hint@),
{
    proof { reveal_strlit("->"); }
    let found = rfind_last(hint, "->");
    match found {
        Some(i) => {
            assert("->"@.len() == 2);
            let n = hint.len();
            assert(i + 2 <= n);
            let rest = subvec(hint, i + 2, n);
            assert(rest@ =~= hint@.skip(i + 2));
            trim(&rest)
        },
        None => trim(hint),
    }
}

/// The hint returns nothing: its success type is `void` or empty.
pub open spec fn spec_hint_is_void_like(hint: Seq<char>) -> bool {
    let ok = spec_ok_type_text(spec_hint_candidate(hint));
    ok == "void"@ || ok.len() == 0
}

/// Whether a return hint returns nothing.
pub fn return_hint_is_void_like(return_hint: &str) -> (r: bool)
    ensures
        r == spec_hint_is_void_like(return_hint@),
{
    let v = chars_of(return_hint);
    let candidate = hint_candidate(&v);
    let ok = return_hint_ok_type_text(&candidate);
    eq_str(&ok, "void") || ok.len() == 0
}

/// The hint can fail (it has a `!`) and its success type is not a scalar
/// value type.
pub open spec fn spec_hint_is_errorable_aggregate(hint: Seq<char>) -> bool {
    let candidate = spec_hint_candidate(hint);
    candidate.contains('!') && spec_parse_type_hint(spec_ok_type_text(candidate)) is Unknown
}

/// Whether a return hint is an error union around an aggregate.
pub fn return_hint_is_errorable_aggregate(return_hint: &str) -> (r: bool)
    ensures
        r == spec_hint_is_errorable_aggregate(return_hint@),
{
    let v = chars_of(return_hint);
    let candidate = hint_candidate(&v);
    match find_first_char(&candidate, '!') {
        None => {
            proof {
                crate::text::lemma_find_char_some(candidate@, '!');
                if candidate@.contains('!') {
                    let k = choose|k: int| 0 <= k < candidate@.len() && candidate@[k] == '!';
                }
            }
            false
        },
        Some(i) => {
            assert(candidate@.contains('!')) by {
                crate::text::lemma_find_char_some(candidate@, '!');
                assert(candidate@[i as int] == '!');
            }
            let ok = return_hint_ok_type_text(&candidate);
            matches!(parse_type_hint_text(&ok), MirValueType::Unknown)
        },
    }
}

/// `main` of module `main` may return nothing instead of an `i32` status.
pub open spec fn spec_allows_non_i32_main(key: ModuleKey, name: Seq<char>, hint: Option<Seq<char>>) -> bool {
    key.module_name@ == "main"@ && name == "main"@ && match hint {
        Some(h) => spec_hint_is_void_like(h),
        None => false,
    }
}

/// Whether a function is the program's `main` with a void-like return hint,
/// so that falling off its end means success.
pub fn allows_non_i32_main_implicit_success(
    module_key: &ModuleKey,
    function_name: &str,
    return_hint: Option<&str>,
) -> (r: bool)
    ensures
        r == spec_allows_non_i32_main(*module_key, function_name@, match return_hint {
            Some(h) => Some(h@),
            None => None,
        }),
{
    let module_name = crate::text::chars_of_string(&module_key.module_name);
    let name = chars_of(function_name);
    if !eq_str(&module_name, "main") || !eq_str(&name, "main") {
        return false;
    }
    match return_hint {
        Some(hint) => return_hint_is_void_like(hint),
        None => false,
    }
}

/// The binary operator a compound assignment applies.
pub open spec fn spec_assign_to_binary_op(op: AssignOp) -> Option<BinaryOp> {
    match op {
        AssignOp::Assign => None,
        AssignOp::AddAssign => Some(BinaryOp::Add),
        AssignOp::SubAssign => Some(BinaryOp::Sub),
        AssignOp::MulAssign => Some(BinaryOp::Mul),
        AssignOp::DivAssign => Some(BinaryOp::Div),
        AssignOp::ModAssign => Some(BinaryOp::Mod),
        AssignOp::BitAndAssign => Some(BinaryOp::BitAnd),
        AssignOp::BitOrAssign => Some(BinaryOp::BitOr),
        AssignOp::BitXorAssign => Some(BinaryOp::BitXor),
        AssignOp::ShlAssign => Some(BinaryOp::Shl),
        AssignOp::ShrAssign => Some(BinaryOp::Shr),
    }
}

/// The binary operator of a compound assignment; `None` for plain `=`.
pub fn assign_to_binary_op(op: AssignOp) -> (r: Option<BinaryOp>)
    ensures
        r == spec_assign_to_binary_op(op),
{
    match op {
        AssignOp::Assign => None,
        AssignOp::AddAssign => Some(BinaryOp::Add),
        AssignOp::SubAssign => Some(BinaryOp::Sub),
        AssignOp::MulAssign => Some(BinaryOp::Mul),
        AssignOp::DivAssign => Some(BinaryOp::Div),
        AssignOp::ModAssign => Some(BinaryOp::Mod),
        AssignOp::BitAndAssign => Some(BinaryOp::BitAnd),
        AssignOp::BitOrAssign => Some(BinaryOp::BitOr),
        AssignOp::BitXorAssign => Some(BinaryOp::BitXor),
        AssignOp::ShlAssign => Some(BinaryOp::Shl),
        AssignOp::ShrAssign => Some(BinaryOp::Shr),
    }
}

/// The parameters and body of a function expression, looking through
/// `inline` markers.
pub open spec fn spec_extract_inline(expr: HirExpr) -> Option<(Seq<String>, HirExpr)>
    decreases expr,
{
    match expr.kind {
        HirExprKind::Function { params, body, .. } => Some((params@, *body)),
        HirExprKind::Inline { expr } => spec_extract_inline(*expr),
        _ => None,
    }
}

/// The parameters and body of a function expression, if it is one.
pub fn extract_inline_function_body(expr: &HirExpr) -> (r: Option<(&Vec<String>, &HirExpr)>)
    ensures
        match spec_extract_inline(*expr) {
            Some((params, body)) => r matches Some((p, b)) && p@ == params && *b == body,
            None => r is None,
        },
    decreases expr,
{
    match &expr.kind {
        HirExprKind::Function { params, body, .. } => Some((params, &**body)),
        HirExprKind::Inline { expr } => extract_inline_function_body(expr),
        _ => None,
    }
}

/// The value of a statement that returns one.
pub open spec fn returned_value(e: HirExpr) -> Option<HirExpr> {
    match e.kind {
        HirExprKind::Return { value: Some(v) } => Some(*v),
        _ => None,
    }
}

/// A block's statements with a final `return value` replaced by `value`.
pub open spec fn spec_normalized_body(s: Seq<HirExpr>) -> Seq<HirExpr> {
    if s.len() > 0 && returned_value(s.last()) is Some {
        s.update(s.len() - 1, returned_value(s.last()).unwrap())
    } else {
        s
    }
}

/// An inlined body with its final `return value` turned into the block's
/// value; any other expression unchanged.
pub fn normalize_inline_hir_body(expr: HirExpr) -> (r: HirExpr)
    ensures
        match expr.kind {
            HirExprKind::Block { body } => r.span == expr.span && (r.kind matches HirExprKind::Block { body: nb }
                && nb@ == spec_normalized_body(body@)),
            _ => r == expr,
        },
{
    let HirExpr { span, kind } = expr;
    match kind {
        HirExprKind::Block { mut body } => {
            let ghost old_body = body@;
            if body.len() > 0 {
                let last = body.pop().unwrap();
                let HirExpr { span: last_span, kind: last_kind } = last;
                let tail = match last_kind {
                    HirExprKind::Return { value: Some(v) } => *v,
                    other => HirExpr { span: last_span, kind: other },
                };
                body.push(tail);
                assert(body@ =~= spec_normalized_body(old_body));
            } else {
                assert(body@ =~= spec_normalized_body(old_body));
            }
            HirExpr { span, kind: HirExprKind::Block { body } }
        },
        other => HirExpr { span, kind: other },
    }
}

/// Whether a compile-time value matches a match pattern: `_` matches all,
/// a type matches its name, and literals match equal literals of their kind.
pub open spec fn spec_comptime_pattern_matches(value: ComptimeValueView, pattern: HirPattern) -> bool {
    match pattern {
        HirPattern::Wildcard => true,
        HirPattern::TypeLiteral(p) => value matches ComptimeValueView::Type(t) && t == p@,
        HirPattern::IdentBind(p) => value matches ComptimeValueView::Type(t) && t == p@,
        HirPattern::Literal(lit) => match (value, lit@) {
            (ComptimeValueView::Literal(HirLiteralView::Bool(v)), HirLiteralView::Bool(p)) => v == p,
            (ComptimeValueView::Literal(HirLiteralView::Integer(v)), HirLiteralView::Integer(p)) => v == p,
            (ComptimeValueView::Literal(HirLiteralView::Float(v)), HirLiteralView::Float(p)) => v == p,
            (ComptimeValueView::Literal(HirLiteralView::String(v)), HirLiteralView::String(p)) => v == p,
            (ComptimeValueView::Literal(HirLiteralView::Null), HirLiteralView::Null) => true,
            _ => false,
        },
        HirPattern::EnumVariant { .. } | HirPattern::RangeLiteral { .. } | HirPattern::Other => false,
    }
}

/// Whether a compile-time value matches a pattern.
pub fn comptime_pattern_matches(value: &ComptimeValue, pattern: &HirPattern) -> (r: bool)
    ensures
        r == spec_comptime_pattern_matches(value@, *pattern),
{
    match pattern {
        HirPattern::Wildcard => true,
        HirPattern::TypeLiteral(p) | HirPattern::IdentBind(p) => match value {
            ComptimeValue::Type(t) => string_eq(t, p),
            _ => false,
        },
        HirPattern::Literal(lit) => match (value, lit) {
            (ComptimeValue::Literal(HirLiteral::Bool(v)), HirLiteral::Bool(p)) => *v == *p,
            (ComptimeValue::Literal(HirLiteral::Integer(v)), HirLiteral::Integer(p)) => string_eq(v, p),
            (ComptimeValue::Literal(HirLiteral::Float(v)), HirLiteral::Float(p)) => string_eq(v, p),
            (ComptimeValue::Literal(HirLiteral::String(v)), HirLiteral::String(p)) => string_eq(v, p),
            (ComptimeValue::Literal(HirLiteral::Null), HirLiteral::Null) => true,
            _ => false,
        },
        HirPattern::EnumVariant { .. } | HirPattern::RangeLiteral { .. } | HirPattern::Other => false,
    }
}

/// The first arm whose pattern the value matches.
pub fn find_comptime_match_arm<'a>(value: &ComptimeValue, arms: &'a [HirMatchArm]) -> (r: Option<&'a HirMatchArm>)
    ensures
        match r {
            Some(arm) => exists|k: int| 0 <= k < arms@.len() && arms@[k] == *arm
                && spec_comptime_pattern_matches(value@, arms@[k].pattern)
                && forall|j: int| 0 <= j < k ==> !spec_comptime_pattern_matches(value@, #[trigger] arms@[j].pattern),
            None => forall|j: int| 0 <= j < arms@.len() ==> !spec_comptime_pattern_matches(value@, #[trigger] arms@[j].pattern),
        },
{
    let mut i: usize = 0;
    while i < arms.len()
        invariant
            i <= arms@.len(),
            forall|j: int| 0 <= j < i ==> !spec_comptime_pattern_matches(value@, #[trigger] arms@[j].pattern),
        decreases arms.len() - i,
    {
        if comptime_pattern_matches(value, &arms[i].pattern) {
            return Some(&arms[i]);
        }
        i = i + 1;
    }
    None
}

/// The position of the first entry of `s` with key `k`.
pub open spec fn first_key_index<V>(s: Seq<(Seq<char>, V)>, k: Seq<char>) -> Option<int>
    decreases s.len(),
{
    if s.len() == 0 {
        None
    } else if s[0].0 == k {
        Some(0)
    } else {
        match first_key_index(s.drop_first(), k) {
            Some(i) => Some(i + 1),
            None => None,
        }
    }
}

/// `s` with `k` mapped to `v`: the first entry with key `k` takes the new
/// value, or the entry is appended when there is none, as inserting into a
/// map does.
pub open spec fn insert_entry<V>(s: Seq<(Seq<char>, V)>, k: Seq<char>, v: V) -> Seq<(Seq<char>, V)> {
    match first_key_index(s, k) {
        Some(i) => s.update(i, (k, v)),
        None => s.push((k, v)),
    }
}

proof fn lemma_first_key_index_at<V>(s: Seq<(Seq<char>, V)>, k: Seq<char>, i: int)
    requires
        0 <= i < s.len(),
        s[i].0 == k,
        forall|j: int| 0 <= j < i ==> (#[trigger] s[j]).0 != k,
    ensures
        first_key_index(s, k) == Some(i),
    decreases i,
{
    if i > 0 {
        assert forall|j: int| 0 <= j < i - 1 implies (#[trigger] s.drop_first()[j]).0 != k by {
            assert(s.drop_first()[j] == s[j + 1]);
        }
        lemma_first_key_index_at(s.drop_first(), k, i - 1);
    }
}

proof fn lemma_first_key_index_none<V>(s: Seq<(Seq<char>, V)>, k: Seq<char>)
    requires
        forall|j: int| 0 <= j < s.len() ==> (#[trigger] s[j]).0 != k,
    ensures
        first_key_index(s, k) is None,
    decreases s.len(),
{
    if s.len() > 0 {
        assert(s[0].0 != k);
        assert forall|j: int| 0 <= j < s.len() - 1 implies (#[trigger] s.drop_first()[j]).0 != k by {
            assert(s.drop_first()[j] == s[j + 1]);
        }
        lemma_first_key_index_none(s.drop_first(), k);
    }
}

/// Tag values of an enum's variants: the variant at index `i` has tag
/// `i + 1`, and a variant listed twice has the tag of its last listing.
pub open spec fn spec_enum_tags(variants: Seq<Seq<char>>) -> Seq<(Seq<char>, int)>
    decreases variants.len(),
{
    if variants.len() == 0 {
        Seq::empty()
    } else {
        insert_entry(spec_enum_tags(variants.drop_last()), variants.last(), (variants.len() as i64) as int)
    }
}

/// Tag widths and variant tags of every enum among the named type
/// literals; a name listed twice is described by its last listing.
pub open spec fn spec_enum_metadata(named: Seq<(String, String)>) -> (Seq<(Seq<char>, u16)>, Seq<(Seq<char>, Seq<(Seq<char>, int)>)>)
    decreases named.len(),
{
    if named.len() == 0 {
        (Seq::empty(), Seq::empty())
    } else {
        let (bits, tags) = spec_enum_metadata(named.drop_last());
        let (name, literal) = named.last();
        match (spec_parse_enum_descriptor(literal@), spec_enum_type_variants(literal@)) {
            (Some((b, _)), Some(variants)) => (insert_entry(bits, name@, b), insert_entry(tags, name@, spec_enum_tags(variants))),
            _ => (bits, tags),
        }
    }
}

/// The views of a list of variant tags.
pub open spec fn tags_view(t: Vec<(String, i64)>) -> Seq<(Seq<char>, int)> {
    t@.map_values(|e: (String, i64)| (e.0@, e.1 as int))
}

/// The views of an enum metadata result.
pub open spec fn metadata_view(r: (Vec<(String, u16)>, Vec<(String, Vec<(String, i64)>)>)) -> (Seq<(Seq<char>, u16)>, Seq<(Seq<char>, Seq<(Seq<char>, int)>)>) {
    (
        r.0@.map_values(|e: (String, u16)| (e.0@, e.1)),
        r.1@.map_values(|e: (String, Vec<(String, i64)>)| (e.0@, tags_view(e.1))),
    )
}

/// The position of the first entry named `k`.
fn first_index_named<V>(s: &Vec<(String, V)>, k: &String) -> (r: Option<usize>)
    ensures
        match r {
            Some(i) => i < s@.len() && s@[i as int].0@ == k@ && forall|j: int| 0 <= j < i ==> (#[trigger] s@[j]).0@ != k@,
            None => forall|j: int| 0 <= j < s@.len() ==> (#[trigger] s@[j]).0@ != k@,
        },
{
    let mut i: usize = 0;
    while i < s.len()
        invariant
            i <= s@.len(),
            forall|j: int| 0 <= j < i ==> (#[trigger] s@[j]).0@ != k@,
        decreases s.len() - i,
    {
        if string_eq(&s[i].0, k) {
            return Some(i);
        }
        i = i + 1;
    }
    None
}

/// The tags of an enum's variants, each variant with the tag of its last
/// listing.
fn variant_tags(variants: &Vec<String>) -> (r: Vec<(String, i64)>)
    ensures
        tags_view(r) == spec_enum_tags(variants@.map_values(|v: String| v@)),
{
    let ghost vs = variants@.map_values(|v: String| v@);
    let mut tags: Vec<(String, i64)> = Vec::new();
    let mut k: usize = 0;
    while k < variants.len()
        invariant
            k <= variants@.len(),
            vs == variants@.map_values(|v: String| v@),
            tags_view(tags) == spec_enum_tags(vs.take(k as int)),
        decreases variants.len() - k,
    {
        let ghost before = tags_view(tags);
        assert(vs.take(k + 1).drop_last() =~= vs.take(k as int));
        assert(vs.take(k + 1).last() == variants@[k as int]@);
        let tag: i64 = (k + 1) as i64;
        match first_index_named(&tags, &variants[k]) {
            Some(i) => {
                proof { lemma_first_key_index_at(before, variants@[k as int]@, i as int); }
                tags.set(i, (variants[k].clone(), tag));
                assert(tags_view(tags) =~= before.update(i as int, (variants@[k as int]@, tag as int)));
            },
            None => {
                proof { lemma_first_key_index_none(before, variants@[k as int]@); }
                tags.push((variants[k].clone(), tag));
                assert(tags_view(tags) =~= before.push((variants@[k as int]@, tag as int)));
            },
        }
        k = k + 1;
    }
    assert(vs.take(variants@.len() as int) =~= vs);
    tags
}

/// For each enum among the named type literals, its tag width and the tag
/// of each variant (its position, counted from one); a variant or a type
/// listed twice is described by its last listing.
pub fn collect_enum_type_metadata(named_type_literals: &Vec<(String, String)>) -> (r: (Vec<(String, u16)>, Vec<(String, Vec<(String, i64)>)>))
    ensures
        metadata_view(r) == spec_enum_metadata(named_type_literals@),
{
    let mut bits_by_name: Vec<(String, u16)> = Vec::new();
    let mut tags_by_name: Vec<(String, Vec<(String, i64)>)> = Vec::new();
    let mut i: usize = 0;
    while i < named_type_literals.len()
        invariant
            i <= named_type_literals@.len(),
            metadata_view((bits_by_name, tags_by_name)) == spec_enum_metadata(named_type_literals@.take(i as int)),
        decreases named_type_literals.len() - i,
    {
        let ghost prefix = named_type_literals@.take(i as int);
        assert(named_type_literals@.take(i + 1).drop_last() =~= prefix);
        let name = &named_type_literals[i].0;
        let literal = named_type_literals[i].1.as_str();
        let ghost old_view = metadata_view((bits_by_name, tags_by_name));
        match enum_type_repr_bits(literal) {
            None => {},
            Some(repr_bits) => match enum_type_variants(literal) {
                None => {},
                Some(variants) => {
                    let tags = variant_tags(&variants);
                    proof {
                        let sv = spec_enum_type_variants(literal@).unwrap();
                        assert(variants@.map_values(|v: String| v@) =~= sv);
                    }
                    let ghost tv = tags_view(tags);
                    match first_index_named(&bits_by_name, name) {
                        Some(j) => {
                            proof { lemma_first_key_index_at(old_view.0, name@, j as int); }
                            bits_by_name.set(j, (name.clone(), repr_bits));
                        },
                        None => {
                            proof { lemma_first_key_index_none(old_view.0, name@); }
                            bits_by_name.push((name.clone(), repr_bits));
                        },
                    }
                    match first_index_named(&tags_by_name, name) {
                        Some(j) => {
                            proof { lemma_first_key_index_at(old_view.1, name@, j as int); }
                            tags_by_name.set(j, (name.clone(), tags));
                        },
                        None => {
                            proof { lemma_first_key_index_none(old_view.1, name@); }
                            tags_by_name.push((name.clone(), tags));
                        },
                    }
                    proof {
                        assert(metadata_view((bits_by_name, tags_by_name)).0 =~= insert_entry(old_view.0, name@, repr_bits));
                        assert(metadata_view((bits_by_name, tags_by_name)).1 =~= insert_entry(old_view.1, name@, tv));
                    }
                },
            },
        }
        i = i + 1;
    }
    assert(named_type_literals@.take(named_type_literals@.len() as int) =~= named_type_literals@);
    (bits_by_name, tags_by_name)
}

} // verus!
