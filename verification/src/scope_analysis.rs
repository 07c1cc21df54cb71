//! Variable analyses of HIR expressions: the names an expression reads
//! without binding them (the captures of a hoisted lambda), and the locals it
//! assigns to.

use vstd::prelude::*;
use crate::hir::{HirCallArg, HirExpr, HirExprKind, HirForExpr, HirIfCapture, HirMatchArm, HirPattern};
use crate::name_set::{NameSet, views, strictly_sorted};
use crate::lower_analysis::{arm_parts, flow_children};

verus! {

/// The names of a sequence of strings, as a set.
pub open spec fn name_set_of(s: Seq<String>) -> Set<Seq<char>> {
    views(s).to_set()
}

/// `bound` with the optional name added.
pub open spec fn bind_opt(bound: Set<Seq<char>>, name: Option<String>) -> Set<Seq<char>> {
    match name {
        Some(n) => bound.insert(n@),
        None => bound,
    }
}

/// `bound` with the binding of an `if` capture added.
pub open spec fn bind_capture(bound: Set<Seq<char>>, capture: Option<HirIfCapture>) -> Set<Seq<char>> {
    match capture {
        Some(c) => bind_opt(bound, c.binding),
        None => bound,
    }
}

/// `bound` with the names a match pattern binds added.
pub open spec fn bind_pattern(bound: Set<Seq<char>>, pattern: HirPattern) -> Set<Seq<char>> {
    match pattern {
        HirPattern::IdentBind(n) => bound.insert(n@),
        HirPattern::EnumVariant { bindings, .. } => bound.union(name_set_of(bindings@)),
        _ => bound,
    }
}

/// The name a `let` introduces, if the expression is one.
pub open spec fn let_name(e: HirExpr) -> Option<Seq<char>> {
    match e.kind {
        HirExprKind::Let { name, .. } => Some(name@),
        _ => None,
    }
}

/// The names introduced by the `let`s of a sequence of statements.
pub open spec fn let_names(s: Seq<HirExpr>) -> Set<Seq<char>>
    decreases s.len(),
{
    if s.len() == 0 {
        Set::empty()
    } else {
        match let_name(s.last()) {
            Some(n) => let_names(s.drop_last()).insert(n),
            None => let_names(s.drop_last()),
        }
    }
}

/// The names that `expr` reads while they are not in `bound` nor bound inside
/// `expr` before the read.
pub open spec fn spec_free_vars(expr: HirExpr, bound: Set<Seq<char>>) -> Set<Seq<char>>
    decreases expr,
{
    match expr.kind {
        HirExprKind::Ident(name) => if bound.contains(name@) { Set::empty() } else { set![name@] },
        HirExprKind::Literal(_) => Set::empty(),
        HirExprKind::Block { body } => block_free_vars(body@, bound),
        HirExprKind::Let { value, .. } => spec_free_vars(*value, bound),
        HirExprKind::Function { params, body, .. } => spec_free_vars(*body, bound.union(name_set_of(params@))),
        HirExprKind::Unary { expr, .. } => spec_free_vars(*expr, bound),
        HirExprKind::Binary { left, right, .. } => spec_free_vars(*left, bound).union(spec_free_vars(*right, bound)),
        HirExprKind::Assign { target, value, .. } => spec_free_vars(*target, bound).union(spec_free_vars(*value, bound)),
        HirExprKind::Call { callee, args } => spec_free_vars(*callee, bound).union(args_free_vars(args@, bound)),
        HirExprKind::FieldAccess { base, .. } => spec_free_vars(*base, bound),
        HirExprKind::DerefAccess { base } => spec_free_vars(*base, bound),
        HirExprKind::Index { base, index } => spec_free_vars(*base, bound).union(spec_free_vars(*index, bound)),
        HirExprKind::Slice { base, start, end, .. } => spec_free_vars(*base, bound)
            .union(match start { Some(e) => spec_free_vars(*e, bound), None => Set::empty() })
            .union(match end { Some(e) => spec_free_vars(*e, bound), None => Set::empty() }),
        HirExprKind::StructLiteral { fields, .. } => fields_free_vars(fields@, bound),
        HirExprKind::EnumVariant { payload, .. } => exprs_free_vars(payload@, bound),
        HirExprKind::If { condition, capture, then_branch, else_branch } => spec_free_vars(*condition, bound)
            .union(spec_free_vars(*then_branch, bind_capture(bound, capture)))
            .union(match else_branch { Some(e) => spec_free_vars(*e, bound), None => Set::empty() }),
        HirExprKind::Match { value, arms } => spec_free_vars(*value, bound).union(arms_free_vars(arms@, bound)),
        HirExprKind::For(f) => match f {
            HirForExpr::Infinite { body } => spec_free_vars(*body, bound),
            HirForExpr::WhileLike { condition, body } => spec_free_vars(*condition, bound)
                .union(spec_free_vars(*body, bound)),
            HirForExpr::Range { start, end, binding, body, .. } => spec_free_vars(*start, bound)
                .union(spec_free_vars(*end, bound))
                .union(spec_free_vars(*body, bind_opt(bound, binding))),
            HirForExpr::Iterate { iterable, binding, body } => spec_free_vars(*iterable, bound)
                .union(spec_free_vars(*body, bind_opt(bound, binding))),
        },
        HirExprKind::Break { value } => match value { Some(v) => spec_free_vars(*v, bound), None => Set::empty() },
        HirExprKind::Return { value } => match value { Some(v) => spec_free_vars(*v, bound), None => Set::empty() },
        HirExprKind::Continue => Set::empty(),
        HirExprKind::Defer { body, .. } => spec_free_vars(*body, bound),
        HirExprKind::OrElse { value, error_binding, fallback } => spec_free_vars(*value, bound)
            .union(spec_free_vars(*fallback, bind_opt(bound, error_binding))),
        HirExprKind::OptionalUnwrap { value } => spec_free_vars(*value, bound),
        HirExprKind::ErrorUnwrap { value } => spec_free_vars(*value, bound),
        HirExprKind::Use { .. } | HirExprKind::TypeLiteral(_) => Set::empty(),
        HirExprKind::Comptime { expr } => spec_free_vars(*expr, bound),
        HirExprKind::Inline { expr } => spec_free_vars(*expr, bound),
        HirExprKind::Unknown => Set::empty(),
    }
}

/// Free names of a block: each statement sees the names bound by the `let`s
/// before it.
pub open spec fn block_free_vars(s: Seq<HirExpr>, bound: Set<Seq<char>>) -> Set<Seq<char>>
    decreases s,
{
    if s.len() == 0 {
        Set::empty()
    } else {
        block_free_vars(s.drop_last(), bound).union(
            spec_free_vars(s.last(), bound.union(let_names(s.drop_last()))),
        )
    }
}

/// Free names of a sequence of expressions, all under the same bindings.
pub open spec fn exprs_free_vars(s: Seq<HirExpr>, bound: Set<Seq<char>>) -> Set<Seq<char>>
    decreases s,
{
    if s.len() == 0 {
        Set::empty()
    } else {
        exprs_free_vars(s.drop_last(), bound).union(spec_free_vars(s.last(), bound))
    }
}

/// Free names of call arguments.
pub open spec fn args_free_vars(s: Seq<HirCallArg>, bound: Set<Seq<char>>) -> Set<Seq<char>>
    decreases s,
{
    if s.len() == 0 {
        Set::empty()
    } else {
        args_free_vars(s.drop_last(), bound).union(spec_free_vars(s.last().value, bound))
    }
}

/// Free names of struct literal fields.
pub open spec fn fields_free_vars(s: Seq<(String, HirExpr)>, bound: Set<Seq<char>>) -> Set<Seq<char>>
    decreases s,
{
    if s.len() == 0 {
        Set::empty()
    } else {
        fields_free_vars(s.drop_last(), bound).union(spec_free_vars(s.last().1, bound))
    }
}

/// Free names of match arms: guard and value see the pattern's bindings.
pub open spec fn arms_free_vars(s: Seq<HirMatchArm>, bound: Set<Seq<char>>) -> Set<Seq<char>>
    decreases s,
{
    if s.len() == 0 {
        Set::empty()
    } else {
        arms_free_vars(s.drop_last(), bound)
            .union(match s.last().guard {
                Some(g) => spec_free_vars(g, bind_pattern(bound, s.last().pattern)),
                None => Set::empty(),
            })
            .union(spec_free_vars(s.last().value, bind_pattern(bound, s.last().pattern)))
    }
}

/// A copy of `bound` with the optional name added.
fn bound_with(bound: &NameSet, name: &Option<String>) -> (r: NameSet)
    ensures
        r@ == bind_opt(bound@, *name),
{
    let mut r = bound.duplicate();
    if let Some(n) = name {
        r.insert(n.clone());
    }
    r
}

/// The names `expr` reads that are neither in `bound` nor bound inside `expr`
/// before the read: what a lambda captures from its surroundings.
#[verifier::loop_isolation(false)]
#[verifier::rlimit(40)]
pub fn collect_free_vars(expr: &HirExpr, bound: &NameSet) -> (r: NameSet)
    ensures
        r@ == spec_free_vars(*expr, bound@),
    decreases expr,
{
    match &expr.kind {
        HirExprKind::Ident(name) => {
            let mut r = NameSet::new();
            if !bound.contains(name) {
                r.insert(name.clone());
            }
            proof {
                if !bound@.contains(name@) {
                    assert(r@ =~= set![name@]);
                }
            }
            r
        },
        HirExprKind::Literal(_) => NameSet::new(),
        HirExprKind::Block { body } => {
            let mut all = NameSet::new();
            let mut cur = bound.duplicate();
            let mut i: usize = 0;
            while i < body.len()
                invariant
                    i <= body@.len(),
                    all@ == block_free_vars(body@.take(i as int), bound@),
                    cur@ == bound@.union(let_names(body@.take(i as int))),
                decreases body.len() - i,
            {
                proof {
                    assert(body@.take(i + 1).drop_last() =~= body@.take(i as int));
                    assert(body@.take(i + 1).last() == body@[i as int]);
                }
                let f = collect_free_vars(&body[i], &cur);
                all.extend(&f);
                if let HirExprKind::Let { name, .. } = &body[i].kind {
                    cur.insert(name.clone());
                }
                proof {
                    assert(cur@ =~= bound@.union(let_names(body@.take(i + 1))));
                }
                i = i + 1;
            }
            assert(body@.take(body@.len() as int) =~= body@);
            all
        },
        HirExprKind::Let { value, .. } => collect_free_vars(value, bound),
        HirExprKind::Function { params, body, .. } => {
            let mut inner = bound.duplicate();
            inner.insert_all(params);
            collect_free_vars(body, &inner)
        },
        HirExprKind::Unary { expr, .. } => collect_free_vars(expr, bound),
        HirExprKind::Binary { left, right, .. } => {
            let mut f = collect_free_vars(left, bound);
            f.extend(&collect_free_vars(right, bound));
            f
        },
        HirExprKind::Assign { target, value, .. } => {
            let mut f = collect_free_vars(target, bound);
            f.extend(&collect_free_vars(value, bound));
            f
        },
        HirExprKind::Call { callee, args } => {
            let mut f = collect_free_vars(callee, bound);
            let ghost head = f@;
            let mut i: usize = 0;
            while i < args.len()
                invariant
                    i <= args@.len(),
                    f@ == head.union(args_free_vars(args@.take(i as int), bound@)),
                decreases args.len() - i,
            {
                assert(args@.take(i + 1).drop_last() =~= args@.take(i as int));
                f.extend(&collect_free_vars(&args[i].value, bound));
                assert(f@ =~= head.union(args_free_vars(args@.take(i + 1), bound@)));
                i = i + 1;
            }
            assert(args@.take(args@.len() as int) =~= args@);
            f
        },
        HirExprKind::FieldAccess { base, .. } => collect_free_vars(base, bound),
        HirExprKind::DerefAccess { base } => collect_free_vars(base, bound),
        HirExprKind::Index { base, index } => {
            let mut f = collect_free_vars(base, bound);
            f.extend(&collect_free_vars(index, bound));
            f
        },
        HirExprKind::Slice { base, start, end, .. } => {
            let mut f = collect_free_vars(base, bound);
            let ghost a = f@;
            if let Some(s) = start {
                f.extend(&collect_free_vars(s, bound));
            }
            assert(f@ =~= a.union(match *start { Some(e) => spec_free_vars(*e, bound@), None => Set::empty() }));
            let ghost b = f@;
            if let Some(e) = end {
                f.extend(&collect_free_vars(e, bound));
            }
            assert(f@ =~= b.union(match *end { Some(e) => spec_free_vars(*e, bound@), None => Set::empty() }));
            f
        },
        HirExprKind::StructLiteral { fields, .. } => {
            let mut f = NameSet::new();
            let mut i: usize = 0;
            while i < fields.len()
                invariant
                    i <= fields@.len(),
                    f@ == fields_free_vars(fields@.take(i as int), bound@),
                decreases fields.len() - i,
            {
                assert(fields@.take(i + 1).drop_last() =~= fields@.take(i as int));
                f.extend(&collect_free_vars(&fields[i].1, bound));
                i = i + 1;
            }
            assert(fields@.take(fields@.len() as int) =~= fields@);
            f
        },
        HirExprKind::EnumVariant { payload, .. } => exprs_free(payload, bound),
        HirExprKind::If { condition, capture, then_branch, else_branch } => {
            let mut f = collect_free_vars(condition, bound);
            let mut then_bound = bound.duplicate();
            if let Some(cap) = capture {
                if let Some(b) = &cap.binding {
                    then_bound.insert(b.clone());
                }
            }
            assert(then_bound@ =~= bind_capture(bound@, *capture));
            f.extend(&collect_free_vars(then_branch, &then_bound));
            let ghost a = f@;
            if let Some(eb) = else_branch {
                f.extend(&collect_free_vars(eb, bound));
            }
            assert(f@ =~= a.union(match *else_branch { Some(e) => spec_free_vars(*e, bound@), None => Set::empty() }));
            f
        },
        HirExprKind::Match { value, arms } => {
            let mut f = collect_free_vars(value, bound);
            let ghost head = f@;
            let mut i: usize = 0;
            while i < arms.len()
                invariant
                    i <= arms@.len(),
                    f@ == head.union(arms_free_vars(arms@.take(i as int), bound@)),
                decreases arms.len() - i,
            {
                assert(arms@.take(i + 1).drop_last() =~= arms@.take(i as int));
                let arm = &arms[i];
                let mut arm_bound = bound.duplicate();
                match &arm.pattern {
                    HirPattern::IdentBind(n) => {
                        arm_bound.insert(n.clone());
                    },
                    HirPattern::EnumVariant { bindings, .. } => {
                        arm_bound.insert_all(bindings);
                    },
                    _ => {},
                }
                assert(arm_bound@ =~= bind_pattern(bound@, arm.pattern));
                let ghost before = f@;
                if let Some(g) = &arm.guard {
                    f.extend(&collect_free_vars(g, &arm_bound));
                }
                assert(f@ =~= before.union(match arm.guard {
                    Some(g) => spec_free_vars(g, bind_pattern(bound@, arm.pattern)),
                    None => Set::empty(),
                }));
                f.extend(&collect_free_vars(&arm.value, &arm_bound));
                assert(f@ =~= head.union(arms_free_vars(arms@.take(i + 1), bound@)));
                i = i + 1;
            }
            assert(arms@.take(arms@.len() as int) =~= arms@);
            f
        },
        HirExprKind::For(for_expr) => match for_expr {
            HirForExpr::Infinite { body } => collect_free_vars(body, bound),
            HirForExpr::WhileLike { condition, body } => {
                let mut f = collect_free_vars(condition, bound);
                f.extend(&collect_free_vars(body, bound));
                f
            },
            HirForExpr::Range { start, end, binding, body, .. } => {
                let mut f = collect_free_vars(start, bound);
                f.extend(&collect_free_vars(end, bound));
                let bb = bound_with(bound, binding);
                f.extend(&collect_free_vars(body, &bb));
                f
            },
            HirForExpr::Iterate { iterable, binding, body } => {
                let mut f = collect_free_vars(iterable, bound);
                let bb = bound_with(bound, binding);
                f.extend(&collect_free_vars(body, &bb));
                f
            },
        },
        HirExprKind::Break { value } => match value {
            Some(v) => collect_free_vars(v, bound),
            None => NameSet::new(),
        },
        HirExprKind::Return { value } => match value {
            Some(v) => collect_free_vars(v, bound),
            None => NameSet::new(),
        },
        HirExprKind::Continue => NameSet::new(),
        HirExprKind::Defer { body, .. } => collect_free_vars(body, bound),
        HirExprKind::OrElse { value, error_binding, fallback } => {
            let mut f = collect_free_vars(value, bound);
            let fb = bound_with(bound, error_binding);
            f.extend(&collect_free_vars(fallback, &fb));
            f
        },
        HirExprKind::OptionalUnwrap { value } => collect_free_vars(value, bound),
        HirExprKind::ErrorUnwrap { value } => collect_free_vars(value, bound),
        HirExprKind::Use { .. } | HirExprKind::TypeLiteral(_) => NameSet::new(),
        HirExprKind::Comptime { expr } => collect_free_vars(expr, bound),
        HirExprKind::Inline { expr } => collect_free_vars(expr, bound),
        HirExprKind::Unknown => NameSet::new(),
    }
}

/// Free names of a sequence of expressions under the same bindings.
fn exprs_free(v: &Vec<HirExpr>, bound: &NameSet) -> (r: NameSet)
    ensures
        r@ == exprs_free_vars(v@, bound@),
    decreases v,
{
    let mut f = NameSet::new();
    let mut i: usize = 0;
    while i < v.len()
        invariant
            i <= v@.len(),
            f@ == exprs_free_vars(v@.take(i as int), bound@),
        decreases v.len() - i,
    {
        assert(v@.take(i + 1).drop_last() =~= v@.take(i as int));
        f.extend(&collect_free_vars(&v[i], bound));
        i = i + 1;
    }
    assert(v@.take(v@.len() as int) =~= v@);
    f
}

/// The names of the locals that `expr` assigns to: the targets of
/// assignments that are plain identifiers, anywhere inside `expr`.
pub open spec fn spec_assigned(expr: HirExpr) -> Set<Seq<char>>
    decreases expr,
{
    match expr.kind {
        HirExprKind::Assign { target, value, .. } => {
            let own = match target.kind {
                HirExprKind::Ident(name) => set![name@],
                _ => Set::empty(),
            };
            own.union(spec_assigned(*target)).union(spec_assigned(*value))
        },
        HirExprKind::Unary { expr, .. } => spec_assigned(*expr),
        HirExprKind::FieldAccess { base, .. } => spec_assigned(*base),
        HirExprKind::DerefAccess { base } => spec_assigned(*base),
        HirExprKind::OptionalUnwrap { value } => spec_assigned(*value),
        HirExprKind::ErrorUnwrap { value } => spec_assigned(*value),
        HirExprKind::Break { value } => match value { Some(v) => spec_assigned(*v), None => Set::empty() },
        HirExprKind::Return { value } => match value { Some(v) => spec_assigned(*v), None => Set::empty() },
        HirExprKind::Defer { body, .. } => spec_assigned(*body),
        HirExprKind::Comptime { expr } => spec_assigned(*expr),
        HirExprKind::Inline { expr } => spec_assigned(*expr),
        HirExprKind::Let { value, .. } => spec_assigned(*value),
        HirExprKind::Binary { left, right, .. } => spec_assigned(*left).union(spec_assigned(*right)),
        HirExprKind::OrElse { value, fallback, .. } => spec_assigned(*value).union(spec_assigned(*fallback)),
        HirExprKind::Call { callee, args } => spec_assigned(*callee).union(args_assigned(args@)),
        HirExprKind::Index { base, index } => spec_assigned(*base).union(spec_assigned(*index)),
        HirExprKind::Slice { base, start, end, .. } => spec_assigned(*base)
            .union(match start { Some(e) => spec_assigned(*e), None => Set::empty() })
            .union(match end { Some(e) => spec_assigned(*e), None => Set::empty() }),
        HirExprKind::StructLiteral { fields, .. } => fields_assigned(fields@),
        HirExprKind::EnumVariant { payload, .. } => exprs_assigned(payload@),
        HirExprKind::Match { value, arms } => spec_assigned(*value).union(arms_assigned(arms@)),
        HirExprKind::Block { body } => exprs_assigned(body@),
        HirExprKind::If { condition, then_branch, else_branch, .. } => spec_assigned(*condition)
            .union(spec_assigned(*then_branch))
            .union(match else_branch { Some(e) => spec_assigned(*e), None => Set::empty() }),
        HirExprKind::Function { param_defaults, body, .. } => defaults_assigned(param_defaults@)
            .union(spec_assigned(*body)),
        HirExprKind::For(f) => match f {
            HirForExpr::Infinite { body } => spec_assigned(*body),
            HirForExpr::WhileLike { condition, body } => spec_assigned(*condition).union(spec_assigned(*body)),
            HirForExpr::Range { start, end, body, .. } => spec_assigned(*start)
                .union(spec_assigned(*end)).union(spec_assigned(*body)),
            HirForExpr::Iterate { iterable, body, .. } => spec_assigned(*iterable).union(spec_assigned(*body)),
        },
        HirExprKind::Continue | HirExprKind::Use { .. } | HirExprKind::TypeLiteral(_)
        | HirExprKind::Ident(_) | HirExprKind::Literal(_) | HirExprKind::Unknown => Set::empty(),
    }
}

/// Assigned names of a sequence of expressions.
pub open spec fn exprs_assigned(s: Seq<HirExpr>) -> Set<Seq<char>>
    decreases s,
{
    if s.len() == 0 { Set::empty() } else { exprs_assigned(s.drop_last()).union(spec_assigned(s.last())) }
}

/// Assigned names of call arguments.
pub open spec fn args_assigned(s: Seq<HirCallArg>) -> Set<Seq<char>>
    decreases s,
{
    if s.len() == 0 { Set::empty() } else { args_assigned(s.drop_last()).union(spec_assigned(s.last().value)) }
}

/// Assigned names of struct literal fields.
pub open spec fn fields_assigned(s: Seq<(String, HirExpr)>) -> Set<Seq<char>>
    decreases s,
{
    if s.len() == 0 { Set::empty() } else { fields_assigned(s.drop_last()).union(spec_assigned(s.last().1)) }
}

/// Assigned names of parameter defaults.
pub open spec fn defaults_assigned(s: Seq<Option<HirExpr>>) -> Set<Seq<char>>
    decreases s,
{
    if s.len() == 0 {
        Set::empty()
    } else {
        defaults_assigned(s.drop_last()).union(match s.last() {
            Some(e) => spec_assigned(e),
            None => Set::empty(),
        })
    }
}

/// Assigned names of match arms, guards included.
pub open spec fn arms_assigned(s: Seq<HirMatchArm>) -> Set<Seq<char>>
    decreases s,
{
    if s.len() == 0 {
        Set::empty()
    } else {
        arms_assigned(s.drop_last())
            .union(match s.last().guard { Some(g) => spec_assigned(g), None => Set::empty() })
            .union(spec_assigned(s.last().value))
    }
}

/// The parameter defaults that are given.
pub open spec fn present_defaults(s: Seq<Option<HirExpr>>) -> Seq<HirExpr>
    decreases s.len(),
{
    if s.len() == 0 {
        Seq::empty()
    } else {
        present_defaults(s.drop_last()) + match s.last() {
            Some(e) => seq![e],
            None => Seq::empty(),
        }
    }
}

/// Every expression directly nested in `e`, a function's given parameter
/// defaults included.
pub open spec fn hir_children(e: HirExpr) -> Seq<HirExpr> {
    match e.kind {
        HirExprKind::Break { value } => match value {
            Some(v) => seq![*v],
            None => Seq::empty(),
        },
        HirExprKind::Return { value } => match value {
            Some(v) => seq![*v],
            None => Seq::empty(),
        },
        HirExprKind::Defer { body, .. } => seq![*body],
        HirExprKind::Function { param_defaults, body, .. } => present_defaults(param_defaults@) + seq![*body],
        _ => flow_children(e),
    }
}

/// The name that `e` itself assigns to: the target of an assignment that
/// is a plain identifier.
pub open spec fn own_assigned(e: HirExpr) -> Set<Seq<char>> {
    match e.kind {
        HirExprKind::Assign { target, .. } => match target.kind {
            HirExprKind::Ident(name) => set![name@],
            _ => Set::empty(),
        },
        _ => Set::empty(),
    }
}

proof fn lemma_exprs_assigned_concat(a: Seq<HirExpr>, b: Seq<HirExpr>)
    ensures
        exprs_assigned(a + b) == exprs_assigned(a).union(exprs_assigned(b)),
    decreases b.len(),
{
    if b.len() == 0 {
        assert(a + b =~= a);
        assert(exprs_assigned(a).union(exprs_assigned(b)) =~= exprs_assigned(a));
    } else {
        lemma_exprs_assigned_concat(a, b.drop_last());
        assert((a + b).drop_last() =~= a + b.drop_last());
        assert((a + b).last() == b.last());
        assert(exprs_assigned(a + b) =~= exprs_assigned(a).union(exprs_assigned(b)));
    }
}

proof fn lemma_exprs_assigned_single(e: HirExpr)
    ensures
        exprs_assigned(seq![e]) == spec_assigned(e),
        exprs_assigned(Seq::<HirExpr>::empty()) == Set::<Seq<char>>::empty(),
{
    assert(exprs_assigned(Seq::<HirExpr>::empty()) =~= Set::<Seq<char>>::empty());
    assert(seq![e].drop_last() =~= Seq::<HirExpr>::empty());
    assert(seq![e].last() == e);
    assert(exprs_assigned(seq![e]) =~= spec_assigned(e));
}

proof fn lemma_exprs_assigned_exists(s: Seq<HirExpr>, x: Seq<char>)
    ensures
        exprs_assigned(s).contains(x) == exists|i: int| 0 <= i < s.len() && spec_assigned(#[trigger] s[i]).contains(x),
    decreases s.len(),
{
    if s.len() > 0 {
        lemma_exprs_assigned_exists(s.drop_last(), x);
        if exists|i: int| 0 <= i < s.len() && spec_assigned(#[trigger] s[i]).contains(x) {
            let i = choose|i: int| 0 <= i < s.len() && spec_assigned(#[trigger] s[i]).contains(x);
            if i < s.len() - 1 {
                assert(s.drop_last()[i] == s[i]);
            }
        }
        if exists|i: int| 0 <= i < s.len() - 1 && spec_assigned(#[trigger] s.drop_last()[i]).contains(x) {
            let i = choose|i: int| 0 <= i < s.len() - 1 && spec_assigned(#[trigger] s.drop_last()[i]).contains(x);
            assert(s[i] == s.drop_last()[i]);
        }
    }
}

proof fn lemma_args_assigned(s: Seq<HirCallArg>)
    ensures
        args_assigned(s) == exprs_assigned(s.map_values(|a: HirCallArg| a.value)),
    decreases s.len(),
{
    if s.len() > 0 {
        lemma_args_assigned(s.drop_last());
        assert(s.map_values(|a: HirCallArg| a.value).drop_last() =~= s.drop_last().map_values(|a: HirCallArg| a.value));
    }
}

proof fn lemma_fields_assigned(s: Seq<(String, HirExpr)>)
    ensures
        fields_assigned(s) == exprs_assigned(s.map_values(|f: (String, HirExpr)| f.1)),
    decreases s.len(),
{
    if s.len() > 0 {
        lemma_fields_assigned(s.drop_last());
        assert(s.map_values(|f: (String, HirExpr)| f.1).drop_last() =~= s.drop_last().map_values(|f: (String, HirExpr)| f.1));
    }
}

proof fn lemma_defaults_assigned(s: Seq<Option<HirExpr>>)
    ensures
        defaults_assigned(s) == exprs_assigned(present_defaults(s)),
    decreases s.len(),
{
    if s.len() > 0 {
        lemma_defaults_assigned(s.drop_last());
        let g: Seq<HirExpr> = match s.last() {
            Some(e) => seq![e],
            None => Seq::empty(),
        };
        lemma_exprs_assigned_concat(present_defaults(s.drop_last()), g);
        match s.last() {
            Some(e) => { lemma_exprs_assigned_single(e); },
            None => {},
        }
        assert(defaults_assigned(s) =~= exprs_assigned(present_defaults(s)));
    }
}

proof fn lemma_arms_assigned(s: Seq<HirMatchArm>)
    ensures
        arms_assigned(s) == exprs_assigned(arm_parts(s)),
    decreases s.len(),
{
    if s.len() > 0 {
        lemma_arms_assigned(s.drop_last());
        let g: Seq<HirExpr> = match s.last().guard {
            Some(g) => seq![g],
            None => Seq::empty(),
        };
        lemma_exprs_assigned_concat(arm_parts(s.drop_last()), g);
        lemma_exprs_assigned_concat(arm_parts(s.drop_last()) + g, seq![s.last().value]);
        lemma_exprs_assigned_single(s.last().value);
        match s.last().guard {
            Some(gd) => { lemma_exprs_assigned_single(gd); },
            None => { lemma_exprs_assigned_single(s.last().value); },
        }
        assert(arms_assigned(s) =~= exprs_assigned(arm_parts(s)));
    }
}

proof fn lemma_exprs_assigned_pair(a: HirExpr, b: HirExpr)
    ensures
        exprs_assigned(seq![a, b]) == spec_assigned(a).union(spec_assigned(b)),
{
    lemma_exprs_assigned_single(a);
    lemma_exprs_assigned_single(b);
    assert(seq![a, b] =~= seq![a] + seq![b]);
    lemma_exprs_assigned_concat(seq![a], seq![b]);
}

proof fn lemma_exprs_assigned_opt(o: Option<Box<HirExpr>>)
    ensures
        exprs_assigned(match o { Some(v) => seq![*v], None => Seq::<HirExpr>::empty() })
            == (match o { Some(v) => spec_assigned(*v), None => Set::<Seq<char>>::empty() }),
{
    assert(exprs_assigned(Seq::<HirExpr>::empty()) =~= Set::<Seq<char>>::empty());
    match o {
        Some(v) => { lemma_exprs_assigned_single(*v); },
        None => {},
    }
}

/// Assigned names split into the expression's own target and those of its
/// children.
proof fn lemma_assigned_by_children(e: HirExpr)
    ensures
        spec_assigned(e) == own_assigned(e).union(exprs_assigned(hir_children(e))),
{
    let c = hir_children(e);
    lemma_exprs_assigned_single(e);
    match e.kind {
        HirExprKind::Assign { target, value, .. } => {
            lemma_exprs_assigned_pair(*target, *value);
            assert(spec_assigned(e) =~= own_assigned(e).union(exprs_assigned(c)));
        },
        HirExprKind::Unary { expr, .. } => { lemma_exprs_assigned_single(*expr); assert(spec_assigned(e) =~= own_assigned(e).union(exprs_assigned(c))); },
        HirExprKind::FieldAccess { base, .. } => { lemma_exprs_assigned_single(*base); assert(spec_assigned(e) =~= own_assigned(e).union(exprs_assigned(c))); },
        HirExprKind::DerefAccess { base } => { lemma_exprs_assigned_single(*base); assert(spec_assigned(e) =~= own_assigned(e).union(exprs_assigned(c))); },
        HirExprKind::OptionalUnwrap { value } => { lemma_exprs_assigned_single(*value); assert(spec_assigned(e) =~= own_assigned(e).union(exprs_assigned(c))); },
        HirExprKind::ErrorUnwrap { value } => { lemma_exprs_assigned_single(*value); assert(spec_assigned(e) =~= own_assigned(e).union(exprs_assigned(c))); },
        HirExprKind::Break { value } => { lemma_exprs_assigned_opt(value); assert(spec_assigned(e) =~= own_assigned(e).union(exprs_assigned(c))); },
        HirExprKind::Return { value } => { lemma_exprs_assigned_opt(value); assert(spec_assigned(e) =~= own_assigned(e).union(exprs_assigned(c))); },
        HirExprKind::Defer { body, .. } => { lemma_exprs_assigned_single(*body); assert(spec_assigned(e) =~= own_assigned(e).union(exprs_assigned(c))); },
        HirExprKind::Comptime { expr } => { lemma_exprs_assigned_single(*expr); assert(spec_assigned(e) =~= own_assigned(e).union(exprs_assigned(c))); },
        HirExprKind::Inline { expr } => { lemma_exprs_assigned_single(*expr); assert(spec_assigned(e) =~= own_assigned(e).union(exprs_assigned(c))); },
        HirExprKind::Let { value, .. } => { lemma_exprs_assigned_single(*value); assert(spec_assigned(e) =~= own_assigned(e).union(exprs_assigned(c))); },
        HirExprKind::Binary { left, right, .. } => { lemma_exprs_assigned_pair(*left, *right); assert(spec_assigned(e) =~= own_assigned(e).union(exprs_assigned(c))); },
        HirExprKind::OrElse { value, fallback, .. } => { lemma_exprs_assigned_pair(*value, *fallback); assert(spec_assigned(e) =~= own_assigned(e).union(exprs_assigned(c))); },
        HirExprKind::Index { base, index } => { lemma_exprs_assigned_pair(*base, *index); assert(spec_assigned(e) =~= own_assigned(e).union(exprs_assigned(c))); },
        HirExprKind::Call { callee, args } => {
            lemma_args_assigned(args@);
            lemma_exprs_assigned_single(*callee);
            lemma_exprs_assigned_concat(seq![*callee], args@.map_values(|a: HirCallArg| a.value));
            assert(spec_assigned(e) =~= own_assigned(e).union(exprs_assigned(c)));
        },
        HirExprKind::Slice { base, start, end, .. } => {
            let s1: Seq<HirExpr> = match start { Some(v) => seq![*v], None => Seq::empty() };
            let s2: Seq<HirExpr> = match end { Some(v) => seq![*v], None => Seq::empty() };
            lemma_exprs_assigned_single(*base);
            lemma_exprs_assigned_opt(start);
            lemma_exprs_assigned_opt(end);
            lemma_exprs_assigned_concat(seq![*base], s1);
            lemma_exprs_assigned_concat(seq![*base] + s1, s2);
            assert(spec_assigned(e) =~= own_assigned(e).union(exprs_assigned(c)));
        },
        HirExprKind::StructLiteral { fields, .. } => {
            lemma_fields_assigned(fields@);
            assert(spec_assigned(e) =~= own_assigned(e).union(exprs_assigned(c)));
        },
        HirExprKind::EnumVariant { payload, .. } => { assert(spec_assigned(e) =~= own_assigned(e).union(exprs_assigned(c))); },
        HirExprKind::Block { body } => { assert(spec_assigned(e) =~= own_assigned(e).union(exprs_assigned(c))); },
        HirExprKind::If { condition, then_branch, else_branch, .. } => {
            let s1: Seq<HirExpr> = match else_branch { Some(v) => seq![*v], None => Seq::empty() };
            lemma_exprs_assigned_pair(*condition, *then_branch);
            lemma_exprs_assigned_opt(else_branch);
            lemma_exprs_assigned_concat(seq![*condition, *then_branch], s1);
            assert(spec_assigned(e) =~= own_assigned(e).union(exprs_assigned(c)));
        },
        HirExprKind::Match { value, arms } => {
            lemma_arms_assigned(arms@);
            lemma_exprs_assigned_single(*value);
            lemma_exprs_assigned_concat(seq![*value], arm_parts(arms@));
            assert(spec_assigned(e) =~= own_assigned(e).union(exprs_assigned(c)));
        },
        HirExprKind::Function { param_defaults, body, .. } => {
            lemma_defaults_assigned(param_defaults@);
            lemma_exprs_assigned_single(*body);
            lemma_exprs_assigned_concat(present_defaults(param_defaults@), seq![*body]);
            assert(spec_assigned(e) =~= own_assigned(e).union(exprs_assigned(c)));
        },
        HirExprKind::For(f) => {
            match f {
                HirForExpr::Infinite { body } => { lemma_exprs_assigned_single(*body); },
                HirForExpr::WhileLike { condition, body } => { lemma_exprs_assigned_pair(*condition, *body); },
                HirForExpr::Iterate { iterable, body, .. } => { lemma_exprs_assigned_pair(*iterable, *body); },
                HirForExpr::Range { start, end, body, .. } => {
                    lemma_exprs_assigned_pair(*start, *end);
                    lemma_exprs_assigned_single(*body);
                    assert(seq![*start, *end, *body] =~= seq![*start, *end] + seq![*body]);
                    lemma_exprs_assigned_concat(seq![*start, *end], seq![*body]);
                },
            }
            assert(spec_assigned(e) =~= own_assigned(e).union(exprs_assigned(c)));
        },
        _ => { assert(spec_assigned(e) =~= own_assigned(e).union(exprs_assigned(c))); },
    }
}

/// The names an expression assigns to are the name it assigns itself (the
/// target of an assignment that is a plain identifier) and those that the
/// expressions nested in it assign, a function's parameter defaults and
/// body, match guards and loop parts included; so, by induction, exactly the
/// plain-identifier targets of the assignments within it, at any depth.
/// (A `let` binds a name; it assigns none.)
pub proof fn lemma_assigned_names_are_nested_assignment_targets(e: HirExpr, x: Seq<char>)
    ensures
        spec_assigned(e).contains(x) == (own_assigned(e).contains(x) || exists|i: int| 0 <= i < hir_children(e).len()
            && spec_assigned(#[trigger] hir_children(e)[i]).contains(x)),
{
    lemma_assigned_by_children(e);
    lemma_exprs_assigned_exists(hir_children(e), x);
}


/// The expression reached from `e` by following `path`: each step picks, by
/// position, one of the expressions directly nested in it.
pub open spec fn hir_sub_at(e: HirExpr, path: Seq<int>) -> Option<HirExpr>
    decreases path.len(),
{
    if path.len() == 0 {
        Some(e)
    } else if 0 <= path[0] < hir_children(e).len() {
        hir_sub_at(hir_children(e)[path[0]], path.drop_first())
    } else {
        None
    }
}

/// Following `path` from `e` reaches an assignment to the name `x`.
pub open spec fn assignment_path_reaches(e: HirExpr, path: Seq<int>, x: Seq<char>) -> bool {
    hir_sub_at(e, path) matches Some(d) && own_assigned(d).contains(x)
}

proof fn lemma_hir_sub_step(e: HirExpr, i: int, q: Seq<int>)
    requires
        0 <= i < hir_children(e).len(),
    ensures
        hir_sub_at(e, seq![i] + q) == hir_sub_at(hir_children(e)[i], q),
{
    assert((seq![i] + q)[0] == i);
    assert((seq![i] + q).drop_first() =~= q);
}

proof fn lemma_assignment_path_sound(e: HirExpr, path: Seq<int>, x: Seq<char>)
    requires
        assignment_path_reaches(e, path, x),
    ensures
        spec_assigned(e).contains(x),
    decreases path.len(),
{
    lemma_assigned_names_are_nested_assignment_targets(e, x);
    if path.len() > 0 {
        let c = hir_children(e);
        lemma_assignment_path_sound(c[path[0]], path.drop_first(), x);
    }
}

proof fn assignment_path_in_exprs(s: Seq<HirExpr>, x: Seq<char>) -> (r: (int, Seq<int>))
    requires
        exprs_assigned(s).contains(x),
    ensures
        0 <= r.0 < s.len(),
        assignment_path_reaches(s[r.0], r.1, x),
    decreases s,
{
    if exprs_assigned(s.drop_last()).contains(x) {
        let (j, q) = assignment_path_in_exprs(s.drop_last(), x);
        assert(s[j] == s.drop_last()[j]);
        (j, q)
    } else {
        (s.len() - 1, assignment_path(s.last(), x))
    }
}

proof fn assignment_path_in_args(s: Seq<HirCallArg>, x: Seq<char>) -> (r: (int, Seq<int>))
    requires
        args_assigned(s).contains(x),
    ensures
        0 <= r.0 < s.len(),
        assignment_path_reaches(s[r.0].value, r.1, x),
    decreases s,
{
    if args_assigned(s.drop_last()).contains(x) {
        let (j, q) = assignment_path_in_args(s.drop_last(), x);
        assert(s[j] == s.drop_last()[j]);
        (j, q)
    } else {
        (s.len() - 1, assignment_path(s.last().value, x))
    }
}

proof fn assignment_path_in_fields(s: Seq<(String, HirExpr)>, x: Seq<char>) -> (r: (int, Seq<int>))
    requires
        fields_assigned(s).contains(x),
    ensures
        0 <= r.0 < s.len(),
        assignment_path_reaches(s[r.0].1, r.1, x),
    decreases s,
{
    if fields_assigned(s.drop_last()).contains(x) {
        let (j, q) = assignment_path_in_fields(s.drop_last(), x);
        assert(s[j] == s.drop_last()[j]);
        (j, q)
    } else {
        (s.len() - 1, assignment_path(s.last().1, x))
    }
}

proof fn assignment_path_in_defaults(s: Seq<Option<HirExpr>>, x: Seq<char>) -> (r: (int, Seq<int>))
    requires
        defaults_assigned(s).contains(x),
    ensures
        0 <= r.0 < present_defaults(s).len(),
        assignment_path_reaches(present_defaults(s)[r.0], r.1, x),
    decreases s,
{
    let pre = present_defaults(s.drop_last());
    if defaults_assigned(s.drop_last()).contains(x) {
        let (j, q) = assignment_path_in_defaults(s.drop_last(), x);
        assert(present_defaults(s)[j] == pre[j]);
        (j, q)
    } else {
        let d = s.last()->0;
        assert(present_defaults(s) == pre + seq![d]);
        assert(present_defaults(s)[pre.len() as int] == d);
        (pre.len() as int, assignment_path(d, x))
    }
}

proof fn assignment_path_in_arms(s: Seq<HirMatchArm>, x: Seq<char>) -> (r: (int, Seq<int>))
    requires
        arms_assigned(s).contains(x),
    ensures
        0 <= r.0 < arm_parts(s).len(),
        assignment_path_reaches(arm_parts(s)[r.0], r.1, x),
    decreases s,
{
    let pre = arm_parts(s.drop_last());
    let g: Seq<HirExpr> = match s.last().guard {
        Some(y) => seq![y],
        None => Seq::empty(),
    };
    assert(arm_parts(s) == pre + g + seq![s.last().value]);
    if arms_assigned(s.drop_last()).contains(x) {
        let (j, q) = assignment_path_in_arms(s.drop_last(), x);
        assert(arm_parts(s)[j] == pre[j]);
        (j, q)
    } else if s.last().guard is Some && spec_assigned(s.last().guard->0).contains(x) {
        assert(arm_parts(s)[pre.len() as int] == s.last().guard->0);
        (pre.len() as int, assignment_path(s.last().guard->0, x))
    } else {
        assert(arm_parts(s)[(pre.len() + g.len()) as int] == s.last().value);
        ((pre.len() + g.len()) as int, assignment_path(s.last().value, x))
    }
}

/// A path from `e` to an assignment to `x` within it, when `e` assigns `x`.
proof fn assignment_path(e: HirExpr, x: Seq<char>) -> (p: Seq<int>)
    requires
        spec_assigned(e).contains(x),
    ensures
        assignment_path_reaches(e, p, x),
    decreases e,
{
    if own_assigned(e).contains(x) {
        return Seq::empty();
    }
    let c = hir_children(e);
    let (i, q): (int, Seq<int>) = match e.kind {
        HirExprKind::Assign { target, value, .. } => if spec_assigned(*target).contains(x) {
            (0, assignment_path(*target, x))
        } else {
            (1, assignment_path(*value, x))
        },
        HirExprKind::Unary { expr, .. } => (0, assignment_path(*expr, x)),
        HirExprKind::DerefAccess { base } => (0, assignment_path(*base, x)),
        HirExprKind::OptionalUnwrap { value } => (0, assignment_path(*value, x)),
        HirExprKind::ErrorUnwrap { value } => (0, assignment_path(*value, x)),
        HirExprKind::Comptime { expr } => (0, assignment_path(*expr, x)),
        HirExprKind::Inline { expr } => (0, assignment_path(*expr, x)),
        HirExprKind::FieldAccess { base, .. } => (0, assignment_path(*base, x)),
        HirExprKind::Let { value, .. } => (0, assignment_path(*value, x)),
        HirExprKind::Defer { body, .. } => (0, assignment_path(*body, x)),
        HirExprKind::Break { value } => (0, assignment_path(*value->0, x)),
        HirExprKind::Return { value } => (0, assignment_path(*value->0, x)),
        HirExprKind::Binary { left, right, .. } => if spec_assigned(*left).contains(x) {
            (0, assignment_path(*left, x))
        } else {
            (1, assignment_path(*right, x))
        },
        HirExprKind::Index { base, index } => if spec_assigned(*base).contains(x) {
            (0, assignment_path(*base, x))
        } else {
            (1, assignment_path(*index, x))
        },
        HirExprKind::OrElse { value, fallback, .. } => if spec_assigned(*value).contains(x) {
            (0, assignment_path(*value, x))
        } else {
            (1, assignment_path(*fallback, x))
        },
        HirExprKind::Call { callee, args } => if spec_assigned(*callee).contains(x) {
            (0, assignment_path(*callee, x))
        } else {
            let (j, q) = assignment_path_in_args(args@, x);
            assert(c[1 + j] == args@[j].value);
            (1 + j, q)
        },
        HirExprKind::Slice { base, start, end, .. } => {
            let s1: Seq<HirExpr> = match start { Some(y) => seq![*y], None => Seq::empty() };
            if spec_assigned(*base).contains(x) {
                (0, assignment_path(*base, x))
            } else if start is Some && spec_assigned(*start->0).contains(x) {
                assert(c[1] == *start->0);
                (1, assignment_path(*start->0, x))
            } else {
                let y = *end->0;
                assert(c[1 + s1.len() as int] == y);
                ((1 + s1.len()) as int, assignment_path(y, x))
            }
        },
        HirExprKind::StructLiteral { fields, .. } => {
            let (j, q) = assignment_path_in_fields(fields@, x);
            assert(c[j] == fields@[j].1);
            (j, q)
        },
        HirExprKind::EnumVariant { payload, .. } => assignment_path_in_exprs(payload@, x),
        HirExprKind::Block { body } => assignment_path_in_exprs(body@, x),
        HirExprKind::If { condition, then_branch, else_branch, .. } => if spec_assigned(*condition).contains(x) {
            (0, assignment_path(*condition, x))
        } else if spec_assigned(*then_branch).contains(x) {
            (1, assignment_path(*then_branch, x))
        } else {
            let y = *else_branch->0;
            assert(c[2] == y);
            (2, assignment_path(y, x))
        },
        HirExprKind::Match { value, arms } => if spec_assigned(*value).contains(x) {
            (0, assignment_path(*value, x))
        } else {
            let (j, q) = assignment_path_in_arms(arms@, x);
            assert(c[1 + j] == arm_parts(arms@)[j]);
            (1 + j, q)
        },
        HirExprKind::Function { param_defaults, body, .. } => {
            let pd = present_defaults(param_defaults@);
            if defaults_assigned(param_defaults@).contains(x) {
                let (j, q) = assignment_path_in_defaults(param_defaults@, x);
                assert(c[j] == pd[j]);
                (j, q)
            } else {
                assert(c[pd.len() as int] == *body);
                (pd.len() as int, assignment_path(*body, x))
            }
        },
        HirExprKind::For(f) => match f {
            HirForExpr::Infinite { body } => (0, assignment_path(*body, x)),
            HirForExpr::WhileLike { condition, body } => if spec_assigned(*condition).contains(x) {
                (0, assignment_path(*condition, x))
            } else {
                (1, assignment_path(*body, x))
            },
            HirForExpr::Iterate { iterable, body, .. } => if spec_assigned(*iterable).contains(x) {
                (0, assignment_path(*iterable, x))
            } else {
                (1, assignment_path(*body, x))
            },
            HirForExpr::Range { start, end, body, .. } => if spec_assigned(*start).contains(x) {
                (0, assignment_path(*start, x))
            } else if spec_assigned(*end).contains(x) {
                (1, assignment_path(*end, x))
            } else {
                (2, assignment_path(*body, x))
            },
        },
        _ => (0, Seq::empty()),
    };
    lemma_hir_sub_step(e, i, q);
    seq![i] + q
}

/// The names an expression assigns to are exactly the plain-identifier
/// targets of the assignments within it, at any depth (a function's
/// parameter defaults and body, match guards and loop parts included).
pub proof fn lemma_assigned_names_are_assignment_descendants(e: HirExpr, x: Seq<char>)
    ensures
        spec_assigned(e).contains(x) == exists|path: Seq<int>| #[trigger] assignment_path_reaches(e, path, x),
{
    if spec_assigned(e).contains(x) {
        let p = assignment_path(e, x);
        assert(assignment_path_reaches(e, p, x));
    }
    if exists|path: Seq<int>| #[trigger] assignment_path_reaches(e, path, x) {
        let p = choose|path: Seq<int>| #[trigger] assignment_path_reaches(e, path, x);
        lemma_assignment_path_sound(e, p, x);
    }
}


/// A child expression with the names bound where it stands.
pub type Scoped = (HirExpr, Set<Seq<char>>);

/// An optional child under `b`.
pub open spec fn opt_scoped(o: Option<Box<HirExpr>>, b: Set<Seq<char>>) -> Seq<Scoped> {
    match o {
        Some(x) => seq![(*x, b)],
        None => Seq::empty(),
    }
}

/// The guards and values of match arms, each under the names its pattern
/// binds.
pub open spec fn arm_scoped(s: Seq<HirMatchArm>, b: Set<Seq<char>>) -> Seq<Scoped>
    decreases s.len(),
{
    if s.len() == 0 {
        Seq::empty()
    } else {
        let pb = bind_pattern(b, s.last().pattern);
        arm_scoped(s.drop_last(), b) + (match s.last().guard {
            Some(g) => seq![(g, pb)],
            None => Seq::empty(),
        }) + seq![(s.last().value, pb)]
    }
}

/// The expressions directly nested in `e`, each with the names bound where
/// it stands when `e` stands under `b`: a function's body sees its
/// parameters, a block's statements the `let`s before them, an `if`'s
/// branch its capture, a loop's body its binding, a match arm its
/// pattern's names, and an `or` fallback its error binding.
pub open spec fn scoped_children(e: HirExpr, b: Set<Seq<char>>) -> Seq<Scoped> {
    match e.kind {
        HirExprKind::Block { body } => Seq::new(body@.len(), |i: int| (body@[i], b.union(let_names(body@.take(i))))),
        HirExprKind::Let { value, .. } => seq![(*value, b)],
        HirExprKind::Function { params, body, .. } => seq![(*body, b.union(name_set_of(params@)))],
        HirExprKind::Unary { expr, .. } => seq![(*expr, b)],
        HirExprKind::Binary { left, right, .. } => seq![(*left, b), (*right, b)],
        HirExprKind::Assign { target, value, .. } => seq![(*target, b), (*value, b)],
        HirExprKind::Call { callee, args } => seq![(*callee, b)] + Seq::new(args@.len(), |i: int| (args@[i].value, b)),
        HirExprKind::FieldAccess { base, .. } => seq![(*base, b)],
        HirExprKind::DerefAccess { base } => seq![(*base, b)],
        HirExprKind::Index { base, index } => seq![(*base, b), (*index, b)],
        HirExprKind::Slice { base, start, end, .. } => seq![(*base, b)] + opt_scoped(start, b) + opt_scoped(end, b),
        HirExprKind::StructLiteral { fields, .. } => Seq::new(fields@.len(), |i: int| (fields@[i].1, b)),
        HirExprKind::EnumVariant { payload, .. } => Seq::new(payload@.len(), |i: int| (payload@[i], b)),
        HirExprKind::If { condition, capture, then_branch, else_branch } => seq![(*condition, b),
            (*then_branch, bind_capture(b, capture))] + opt_scoped(else_branch, b),
        HirExprKind::Match { value, arms } => seq![(*value, b)] + arm_scoped(arms@, b),
        HirExprKind::For(f) => match f {
            HirForExpr::Infinite { body } => seq![(*body, b)],
            HirForExpr::WhileLike { condition, body } => seq![(*condition, b), (*body, b)],
            HirForExpr::Range { start, end, binding, body, .. } => seq![(*start, b), (*end, b), (*body, bind_opt(b, binding))],
            HirForExpr::Iterate { iterable, binding, body } => seq![(*iterable, b), (*body, bind_opt(b, binding))],
        },
        HirExprKind::Break { value } => opt_scoped(value, b),
        HirExprKind::Return { value } => opt_scoped(value, b),
        HirExprKind::Defer { body, .. } => seq![(*body, b)],
        HirExprKind::OrElse { value, error_binding, fallback } => seq![(*value, b), (*fallback, bind_opt(b, error_binding))],
        HirExprKind::OptionalUnwrap { value } => seq![(*value, b)],
        HirExprKind::ErrorUnwrap { value } => seq![(*value, b)],
        HirExprKind::Comptime { expr } => seq![(*expr, b)],
        HirExprKind::Inline { expr } => seq![(*expr, b)],
        _ => Seq::empty(),
    }
}

proof fn lemma_exprs_free_includes(s: Seq<HirExpr>, b: Set<Seq<char>>, i: int)
    requires
        0 <= i < s.len(),
    ensures
        spec_free_vars(s[i], b).subset_of(exprs_free_vars(s, b)),
    decreases s.len(),
{
    if i < s.len() - 1 {
        assert(s.drop_last()[i] == s[i]);
        lemma_exprs_free_includes(s.drop_last(), b, i);
    }
}

proof fn lemma_args_free_includes(s: Seq<HirCallArg>, b: Set<Seq<char>>, i: int)
    requires
        0 <= i < s.len(),
    ensures
        spec_free_vars(s[i].value, b).subset_of(args_free_vars(s, b)),
    decreases s.len(),
{
    if i < s.len() - 1 {
        assert(s.drop_last()[i] == s[i]);
        lemma_args_free_includes(s.drop_last(), b, i);
    }
}

proof fn lemma_fields_free_includes(s: Seq<(String, HirExpr)>, b: Set<Seq<char>>, i: int)
    requires
        0 <= i < s.len(),
    ensures
        spec_free_vars(s[i].1, b).subset_of(fields_free_vars(s, b)),
    decreases s.len(),
{
    if i < s.len() - 1 {
        assert(s.drop_last()[i] == s[i]);
        lemma_fields_free_includes(s.drop_last(), b, i);
    }
}

proof fn lemma_block_free_includes(s: Seq<HirExpr>, b: Set<Seq<char>>, i: int)
    requires
        0 <= i < s.len(),
    ensures
        spec_free_vars(s[i], b.union(let_names(s.take(i)))).subset_of(block_free_vars(s, b)),
    decreases s.len(),
{
    if i < s.len() - 1 {
        assert(s.drop_last()[i] == s[i]);
        assert(s.drop_last().take(i) =~= s.take(i));
        lemma_block_free_includes(s.drop_last(), b, i);
    } else {
        assert(s.take(i) =~= s.drop_last());
    }
}

proof fn lemma_arms_free_includes(s: Seq<HirMatchArm>, b: Set<Seq<char>>, i: int)
    requires
        0 <= i < arm_scoped(s, b).len(),
    ensures
        spec_free_vars(arm_scoped(s, b)[i].0, arm_scoped(s, b)[i].1).subset_of(arms_free_vars(s, b)),
    decreases s.len(),
{
    let pre = arm_scoped(s.drop_last(), b);
    let pb = bind_pattern(b, s.last().pattern);
    let g: Seq<Scoped> = match s.last().guard {
        Some(x) => seq![(x, pb)],
        None => Seq::empty(),
    };
    assert(arm_scoped(s, b) == pre + g + seq![(s.last().value, pb)]);
    if i < pre.len() {
        assert(arm_scoped(s, b)[i] == pre[i]);
        lemma_arms_free_includes(s.drop_last(), b, i);
    } else if i < pre.len() + g.len() {
        assert(arm_scoped(s, b)[i] == g[i - pre.len()]);
    } else {
        assert(arm_scoped(s, b)[i] == (s.last().value, pb));
    }
}

/// The free names of an expression: a name it reads itself and that is not
/// bound, and every free name of each expression nested in it, taken under
/// the names bound where that expression stands.
pub proof fn lemma_free_vars_include_children(e: HirExpr, b: Set<Seq<char>>)
    ensures
        e.kind matches HirExprKind::Ident(n) ==> (!b.contains(n@) ==> spec_free_vars(e, b).contains(n@)),
        forall|i: int| 0 <= i < scoped_children(e, b).len() ==> #[trigger] spec_free_vars(scoped_children(e, b)[i].0,
            scoped_children(e, b)[i].1).subset_of(spec_free_vars(e, b)),
{
    let c = scoped_children(e, b);
    assert forall|i: int| 0 <= i < c.len() implies #[trigger] spec_free_vars(c[i].0, c[i].1).subset_of(spec_free_vars(e, b)) by {
        match e.kind {
            HirExprKind::Block { body } => {
                lemma_block_free_includes(body@, b, i);
            },
            HirExprKind::Call { callee, args } => {
                if i > 0 {
                    lemma_args_free_includes(args@, b, i - 1);
                }
            },
            HirExprKind::StructLiteral { fields, .. } => {
                lemma_fields_free_includes(fields@, b, i);
            },
            HirExprKind::EnumVariant { payload, .. } => {
                lemma_exprs_free_includes(payload@, b, i);
            },
            HirExprKind::Match { value, arms } => {
                if i > 0 {
                    assert(c[i] == arm_scoped(arms@, b)[i - 1]);
                    lemma_arms_free_includes(arms@, b, i - 1);
                }
            },
            HirExprKind::Slice { base, start, end, .. } => {
                let s1 = opt_scoped(start, b);
                if i >= 1 + s1.len() {
                    assert(c[i] == opt_scoped(end, b)[i - 1 - s1.len()]);
                } else if i >= 1 {
                    assert(c[i] == s1[i - 1]);
                }
            },
            HirExprKind::If { else_branch, .. } => {
                if i >= 2 {
                    assert(c[i] == opt_scoped(else_branch, b)[i - 2]);
                }
            },
            _ => {},
        }
    }
}


/// The expression reached from `e` (standing under `b`) by following
/// `path` through nested expressions, with the names bound where it stands.
pub open spec fn scoped_sub_at(e: HirExpr, b: Set<Seq<char>>, path: Seq<int>) -> Option<Scoped>
    decreases path.len(),
{
    if path.len() == 0 {
        Some((e, b))
    } else if 0 <= path[0] < scoped_children(e, b).len() {
        scoped_sub_at(scoped_children(e, b)[path[0]].0, scoped_children(e, b)[path[0]].1, path.drop_first())
    } else {
        None
    }
}

/// Following `path` from `e` reaches a read of the name `x` where `x` is not
/// bound.
pub open spec fn free_read_at(e: HirExpr, b: Set<Seq<char>>, path: Seq<int>, x: Seq<char>) -> bool {
    scoped_sub_at(e, b, path) matches Some(p) && (p.0.kind matches HirExprKind::Ident(n) && n@ == x) && !p.1.contains(x)
}

/// Every name that an identifier anywhere within `e` reads, and that is not
/// bound where it is read (by `b`, a function's parameters, an earlier
/// `let` of a block, a capture, a loop binding, a pattern or an error
/// binding), is a free name of `e`.
pub proof fn lemma_free_reads_are_free_vars(e: HirExpr, b: Set<Seq<char>>, path: Seq<int>, x: Seq<char>)
    requires
        free_read_at(e, b, path, x),
    ensures
        spec_free_vars(e, b).contains(x),
    decreases path.len(),
{
    lemma_free_vars_include_children(e, b);
    if path.len() > 0 {
        let i = path[0];
        let c = scoped_children(e, b)[i];
        lemma_free_reads_are_free_vars(c.0, c.1, path.drop_first(), x);
        assert(spec_free_vars(scoped_children(e, b)[i].0, scoped_children(e, b)[i].1).subset_of(spec_free_vars(e, b)));
    }
}


proof fn lemma_scoped_step(e: HirExpr, b: Set<Seq<char>>, i: int, q: Seq<int>)
    requires
        0 <= i < scoped_children(e, b).len(),
    ensures
        scoped_sub_at(e, b, seq![i] + q) == scoped_sub_at(scoped_children(e, b)[i].0, scoped_children(e, b)[i].1, q),
{
    assert((seq![i] + q)[0] == i);
    assert((seq![i] + q).drop_first() =~= q);
}

proof fn free_path_in_exprs(s: Seq<HirExpr>, b: Set<Seq<char>>, x: Seq<char>) -> (r: (int, Seq<int>))
    requires
        exprs_free_vars(s, b).contains(x),
    ensures
        0 <= r.0 < s.len(),
        free_read_at(s[r.0], b, r.1, x),
    decreases s,
{
    if exprs_free_vars(s.drop_last(), b).contains(x) {
        let (j, q) = free_path_in_exprs(s.drop_last(), b, x);
        assert(s[j] == s.drop_last()[j]);
        (j, q)
    } else {
        (s.len() - 1, free_path(s.last(), b, x))
    }
}

proof fn free_path_in_args(s: Seq<HirCallArg>, b: Set<Seq<char>>, x: Seq<char>) -> (r: (int, Seq<int>))
    requires
        args_free_vars(s, b).contains(x),
    ensures
        0 <= r.0 < s.len(),
        free_read_at(s[r.0].value, b, r.1, x),
    decreases s,
{
    if args_free_vars(s.drop_last(), b).contains(x) {
        let (j, q) = free_path_in_args(s.drop_last(), b, x);
        assert(s[j] == s.drop_last()[j]);
        (j, q)
    } else {
        (s.len() - 1, free_path(s.last().value, b, x))
    }
}

proof fn free_path_in_fields(s: Seq<(String, HirExpr)>, b: Set<Seq<char>>, x: Seq<char>) -> (r: (int, Seq<int>))
    requires
        fields_free_vars(s, b).contains(x),
    ensures
        0 <= r.0 < s.len(),
        free_read_at(s[r.0].1, b, r.1, x),
    decreases s,
{
    if fields_free_vars(s.drop_last(), b).contains(x) {
        let (j, q) = free_path_in_fields(s.drop_last(), b, x);
        assert(s[j] == s.drop_last()[j]);
        (j, q)
    } else {
        (s.len() - 1, free_path(s.last().1, b, x))
    }
}

proof fn free_path_in_block(s: Seq<HirExpr>, b: Set<Seq<char>>, x: Seq<char>) -> (r: (int, Seq<int>))
    requires
        block_free_vars(s, b).contains(x),
    ensures
        0 <= r.0 < s.len(),
        free_read_at(s[r.0], b.union(let_names(s.take(r.0))), r.1, x),
    decreases s,
{
    if block_free_vars(s.drop_last(), b).contains(x) {
        let (j, q) = free_path_in_block(s.drop_last(), b, x);
        assert(s[j] == s.drop_last()[j]);
        assert(s.drop_last().take(j) =~= s.take(j));
        (j, q)
    } else {
        let i = s.len() - 1;
        assert(s.take(i) =~= s.drop_last());
        (i, free_path(s.last(), b.union(let_names(s.drop_last())), x))
    }
}

proof fn free_path_in_arms(s: Seq<HirMatchArm>, b: Set<Seq<char>>, x: Seq<char>) -> (r: (int, Seq<int>))
    requires
        arms_free_vars(s, b).contains(x),
    ensures
        0 <= r.0 < arm_scoped(s, b).len(),
        free_read_at(arm_scoped(s, b)[r.0].0, arm_scoped(s, b)[r.0].1, r.1, x),
    decreases s,
{
    let pre = arm_scoped(s.drop_last(), b);
    let pb = bind_pattern(b, s.last().pattern);
    let g: Seq<Scoped> = match s.last().guard {
        Some(y) => seq![(y, pb)],
        None => Seq::empty(),
    };
    assert(arm_scoped(s, b) == pre + g + seq![(s.last().value, pb)]);
    if arms_free_vars(s.drop_last(), b).contains(x) {
        let (j, q) = free_path_in_arms(s.drop_last(), b, x);
        assert(arm_scoped(s, b)[j] == pre[j]);
        (j, q)
    } else if s.last().guard is Some && spec_free_vars(s.last().guard->0, pb).contains(x) {
        assert(arm_scoped(s, b)[pre.len() as int] == (s.last().guard->0, pb));
        (pre.len() as int, free_path(s.last().guard->0, pb, x))
    } else {
        assert(arm_scoped(s, b)[(pre.len() + g.len()) as int] == (s.last().value, pb));
        ((pre.len() + g.len()) as int, free_path(s.last().value, pb, x))
    }
}

/// A path from `e` to an unbound read of `x`, when `x` is a free name of `e`.
proof fn free_path(e: HirExpr, b: Set<Seq<char>>, x: Seq<char>) -> (p: Seq<int>)
    requires
        spec_free_vars(e, b).contains(x),
    ensures
        free_read_at(e, b, p, x),
    decreases e,
{
    if e.kind is Ident {
        return Seq::empty();
    }
    let c = scoped_children(e, b);
    let (i, q): (int, Seq<int>) = match e.kind {
        HirExprKind::Block { body } => {
            let (j, q) = free_path_in_block(body@, b, x);
            (j, q)
        },
        HirExprKind::Let { value, .. } => (0, free_path(*value, b, x)),
        HirExprKind::Function { params, body, .. } => (0, free_path(*body, b.union(name_set_of(params@)), x)),
        HirExprKind::Unary { expr, .. } => (0, free_path(*expr, b, x)),
        HirExprKind::Binary { left, right, .. } => if spec_free_vars(*left, b).contains(x) {
            (0, free_path(*left, b, x))
        } else {
            (1, free_path(*right, b, x))
        },
        HirExprKind::Assign { target, value, .. } => if spec_free_vars(*target, b).contains(x) {
            (0, free_path(*target, b, x))
        } else {
            (1, free_path(*value, b, x))
        },
        HirExprKind::Call { callee, args } => if spec_free_vars(*callee, b).contains(x) {
            (0, free_path(*callee, b, x))
        } else {
            let (j, q) = free_path_in_args(args@, b, x);
            assert(c[1 + j] == (args@[j].value, b));
            (1 + j, q)
        },
        HirExprKind::FieldAccess { base, .. } => (0, free_path(*base, b, x)),
        HirExprKind::DerefAccess { base } => (0, free_path(*base, b, x)),
        HirExprKind::Index { base, index } => if spec_free_vars(*base, b).contains(x) {
            (0, free_path(*base, b, x))
        } else {
            (1, free_path(*index, b, x))
        },
        HirExprKind::Slice { base, start, end, .. } => {
            let s1 = opt_scoped(start, b);
            if spec_free_vars(*base, b).contains(x) {
                (0, free_path(*base, b, x))
            } else if start is Some && spec_free_vars(*start->0, b).contains(x) {
                assert(c[1] == (*start->0, b));
                (1, free_path(*start->0, b, x))
            } else {
                let y = *end->0;
                assert(c[1 + s1.len() as int] == (y, b));
                ((1 + s1.len()) as int, free_path(y, b, x))
            }
        },
        HirExprKind::StructLiteral { fields, .. } => {
            let (j, q) = free_path_in_fields(fields@, b, x);
            assert(c[j] == (fields@[j].1, b));
            (j, q)
        },
        HirExprKind::EnumVariant { payload, .. } => {
            let (j, q) = free_path_in_exprs(payload@, b, x);
            assert(c[j] == (payload@[j], b));
            (j, q)
        },
        HirExprKind::If { condition, capture, then_branch, else_branch } => if spec_free_vars(*condition, b).contains(x) {
            (0, free_path(*condition, b, x))
        } else if spec_free_vars(*then_branch, bind_capture(b, capture)).contains(x) {
            (1, free_path(*then_branch, bind_capture(b, capture), x))
        } else {
            let y = *else_branch->0;
            assert(c[2] == (y, b));
            (2, free_path(y, b, x))
        },
        HirExprKind::Match { value, arms } => if spec_free_vars(*value, b).contains(x) {
            (0, free_path(*value, b, x))
        } else {
            let (j, q) = free_path_in_arms(arms@, b, x);
            assert(c[1 + j] == arm_scoped(arms@, b)[j]);
            (1 + j, q)
        },
        HirExprKind::For(f) => match f {
            HirForExpr::Infinite { body } => (0, free_path(*body, b, x)),
            HirForExpr::WhileLike { condition, body } => if spec_free_vars(*condition, b).contains(x) {
                (0, free_path(*condition, b, x))
            } else {
                (1, free_path(*body, b, x))
            },
            HirForExpr::Range { start, end, binding, body, .. } => if spec_free_vars(*start, b).contains(x) {
                (0, free_path(*start, b, x))
            } else if spec_free_vars(*end, b).contains(x) {
                (1, free_path(*end, b, x))
            } else {
                (2, free_path(*body, bind_opt(b, binding), x))
            },
            HirForExpr::Iterate { iterable, binding, body } => if spec_free_vars(*iterable, b).contains(x) {
                (0, free_path(*iterable, b, x))
            } else {
                (1, free_path(*body, bind_opt(b, binding), x))
            },
        },
        HirExprKind::Break { value } => (0, free_path(*value->0, b, x)),
        HirExprKind::Return { value } => (0, free_path(*value->0, b, x)),
        HirExprKind::Defer { body, .. } => (0, free_path(*body, b, x)),
        HirExprKind::OrElse { value, error_binding, fallback } => if spec_free_vars(*value, b).contains(x) {
            (0, free_path(*value, b, x))
        } else {
            (1, free_path(*fallback, bind_opt(b, error_binding), x))
        },
        HirExprKind::OptionalUnwrap { value } => (0, free_path(*value, b, x)),
        HirExprKind::ErrorUnwrap { value } => (0, free_path(*value, b, x)),
        HirExprKind::Comptime { expr } => (0, free_path(*expr, b, x)),
        HirExprKind::Inline { expr } => (0, free_path(*expr, b, x)),
        _ => (0, Seq::empty()),
    };
    lemma_scoped_step(e, b, i, q);
    seq![i] + q
}

/// The free names of `e` are exactly the names that identifiers within it
/// read where those names are not bound.
pub proof fn lemma_free_vars_are_exactly_free_reads(e: HirExpr, b: Set<Seq<char>>, x: Seq<char>)
    ensures
        spec_free_vars(e, b).contains(x) == exists|path: Seq<int>| #[trigger] free_read_at(e, b, path, x),
{
    if spec_free_vars(e, b).contains(x) {
        let p = free_path(e, b, x);
        assert(free_read_at(e, b, p, x));
    }
    if exists|path: Seq<int>| #[trigger] free_read_at(e, b, path, x) {
        let p = choose|path: Seq<int>| #[trigger] free_read_at(e, b, path, x);
        lemma_free_reads_are_free_vars(e, b, p, x);
    }
}

/// Adds to `names` every local that `expr` assigns to.
#[verifier::loop_isolation(false)]
#[verifier::rlimit(40)]
pub fn collect_assigned_local_names(expr: &HirExpr, names: &mut NameSet)
    ensures
        final(names)@ == old(names)@.union(spec_assigned(*expr)),
    decreases expr,
{
    let ghost start = names@;
    match &expr.kind {
        HirExprKind::Assign { target, value, .. } => {
            if let HirExprKind::Ident(name) = &target.kind {
                names.insert(name.clone());
            }
            collect_assigned_local_names(target, names);
            collect_assigned_local_names(value, names);
            assert(names@ =~= start.union(spec_assigned(*expr)));
        },
        HirExprKind::Unary { expr, .. } => collect_assigned_local_names(expr, names),
        HirExprKind::FieldAccess { base, .. } => collect_assigned_local_names(base, names),
        HirExprKind::DerefAccess { base } => collect_assigned_local_names(base, names),
        HirExprKind::OptionalUnwrap { value } => collect_assigned_local_names(value, names),
        HirExprKind::ErrorUnwrap { value } => collect_assigned_local_names(value, names),
        HirExprKind::Break { value } => {
            if let Some(v) = value {
                collect_assigned_local_names(v, names);
            }
            assert(names@ =~= start.union(spec_assigned(*expr)));
        },
        HirExprKind::Return { value } => {
            if let Some(v) = value {
                collect_assigned_local_names(v, names);
            }
            assert(names@ =~= start.union(spec_assigned(*expr)));
        },
        HirExprKind::Defer { body, .. } => collect_assigned_local_names(body, names),
        HirExprKind::Comptime { expr } => collect_assigned_local_names(expr, names),
        HirExprKind::Inline { expr } => collect_assigned_local_names(expr, names),
        HirExprKind::Let { value, .. } => collect_assigned_local_names(value, names),
        HirExprKind::Binary { left, right, .. } => {
            collect_assigned_local_names(left, names);
            collect_assigned_local_names(right, names);
            assert(names@ =~= start.union(spec_assigned(*expr)));
        },
        HirExprKind::OrElse { value, fallback, .. } => {
            collect_assigned_local_names(value, names);
            collect_assigned_local_names(fallback, names);
            assert(names@ =~= start.union(spec_assigned(*expr)));
        },
        HirExprKind::Call { callee, args } => {
            collect_assigned_local_names(callee, names);
            let ghost head = names@;
            let mut i: usize = 0;
            while i < args.len()
                invariant
                    i <= args@.len(),
                    names@ == head.union(args_assigned(args@.take(i as int))),
                decreases args.len() - i,
            {
                assert(args@.take(i + 1).drop_last() =~= args@.take(i as int));
                collect_assigned_local_names(&args[i].value, names);
                assert(names@ =~= head.union(args_assigned(args@.take(i + 1))));
                i = i + 1;
            }
            assert(args@.take(args@.len() as int) =~= args@);
            assert(names@ =~= start.union(spec_assigned(*expr)));
        },
        HirExprKind::Index { base, index } => {
            collect_assigned_local_names(base, names);
            collect_assigned_local_names(index, names);
            assert(names@ =~= start.union(spec_assigned(*expr)));
        },
        HirExprKind::Slice { base, start: lo, end: hi, .. } => {
            collect_assigned_local_names(base, names);
            if let Some(e) = lo {
                collect_assigned_local_names(e, names);
            }
            if let Some(e) = hi {
                collect_assigned_local_names(e, names);
            }
            assert(names@ =~= start.union(spec_assigned(*expr)));
        },
        HirExprKind::StructLiteral { fields, .. } => {
            let mut i: usize = 0;
            while i < fields.len()
                invariant
                    i <= fields@.len(),
                    names@ == start.union(fields_assigned(fields@.take(i as int))),
                decreases fields.len() - i,
            {
                assert(fields@.take(i + 1).drop_last() =~= fields@.take(i as int));
                collect_assigned_local_names(&fields[i].1, names);
                assert(names@ =~= start.union(fields_assigned(fields@.take(i + 1))));
                i = i + 1;
            }
            assert(fields@.take(fields@.len() as int) =~= fields@);
        },
        HirExprKind::EnumVariant { payload, .. } => exprs_assigned_into(payload, names),
        HirExprKind::Match { value, arms } => {
            collect_assigned_local_names(value, names);
            let ghost head = names@;
            let mut i: usize = 0;
            while i < arms.len()
                invariant
                    i <= arms@.len(),
                    names@ == head.union(arms_assigned(arms@.take(i as int))),
                decreases arms.len() - i,
            {
                assert(arms@.take(i + 1).drop_last() =~= arms@.take(i as int));
                let ghost before = names@;
                if let Some(g) = &arms[i].guard {
                    collect_assigned_local_names(g, names);
                }
                assert(names@ =~= before.union(match arms@[i as int].guard {
                    Some(g) => spec_assigned(g),
                    None => Set::empty(),
                }));
                collect_assigned_local_names(&arms[i].value, names);
                assert(names@ =~= head.union(arms_assigned(arms@.take(i + 1))));
                i = i + 1;
            }
            assert(arms@.take(arms@.len() as int) =~= arms@);
            assert(names@ =~= start.union(spec_assigned(*expr)));
        },
        HirExprKind::Block { body } => exprs_assigned_into(body, names),
        HirExprKind::If { condition, then_branch, else_branch, .. } => {
            collect_assigned_local_names(condition, names);
            collect_assigned_local_names(then_branch, names);
            if let Some(e) = else_branch {
                collect_assigned_local_names(e, names);
            }
            assert(names@ =~= start.union(spec_assigned(*expr)));
        },
        HirExprKind::Function { param_defaults, body, .. } => {
            let mut i: usize = 0;
            while i < param_defaults.len()
                invariant
                    i <= param_defaults@.len(),
                    names@ == start.union(defaults_assigned(param_defaults@.take(i as int))),
                decreases param_defaults.len() - i,
            {
                assert(param_defaults@.take(i + 1).drop_last() =~= param_defaults@.take(i as int));
                if let Some(d) = &param_defaults[i] {
                    collect_assigned_local_names(d, names);
                }
                assert(names@ =~= start.union(defaults_assigned(param_defaults@.take(i + 1))));
                i = i + 1;
            }
            assert(param_defaults@.take(param_defaults@.len() as int) =~= param_defaults@);
            collect_assigned_local_names(body, names);
            assert(names@ =~= start.union(spec_assigned(*expr)));
        },
        HirExprKind::For(f) => {
            match f {
                HirForExpr::Infinite { body } => collect_assigned_local_names(body, names),
                HirForExpr::WhileLike { condition, body } => {
                    collect_assigned_local_names(condition, names);
                    collect_assigned_local_names(body, names);
                },
                HirForExpr::Range { start: lo, end: hi, body, .. } => {
                    collect_assigned_local_names(lo, names);
                    collect_assigned_local_names(hi, names);
                    collect_assigned_local_names(body, names);
                },
                HirForExpr::Iterate { iterable, body, .. } => {
                    collect_assigned_local_names(iterable, names);
                    collect_assigned_local_names(body, names);
                },
            }
            assert(names@ =~= start.union(spec_assigned(*expr)));
        },
        HirExprKind::Continue | HirExprKind::Use { .. } | HirExprKind::TypeLiteral(_)
        | HirExprKind::Ident(_) | HirExprKind::Literal(_) | HirExprKind::Unknown => {
            assert(names@ =~= start.union(spec_assigned(*expr)));
        },
    }
}

/// Adds the assigned names of each expression of `v`.
fn exprs_assigned_into(v: &Vec<HirExpr>, names: &mut NameSet)
    ensures
        final(names)@ == old(names)@.union(exprs_assigned(v@)),
    decreases v,
{
    let ghost start = names@;
    let mut i: usize = 0;
    while i < v.len()
        invariant
            i <= v@.len(),
            names@ == start.union(exprs_assigned(v@.take(i as int))),
        decreases v.len() - i,
    {
        assert(v@.take(i + 1).drop_last() =~= v@.take(i as int));
        collect_assigned_local_names(&v[i], names);
        assert(names@ =~= start.union(exprs_assigned(v@.take(i + 1))));
        i = i + 1;
    }
    assert(v@.take(v@.len() as int) =~= v@);
}

/// The locals that `expr` assigns to, in increasing order, each once.
pub fn assigned_local_names(expr: &HirExpr) -> (r: Vec<String>)
    ensures
        strictly_sorted(views(r@)),
        views(r@).to_set() == spec_assigned(*expr),
{
    let mut names = NameSet::new();
    collect_assigned_local_names(expr, &mut names);
    assert(names@ =~= spec_assigned(*expr));
    names.to_vec()
}

/// No name of `names` is in `bound`.
pub open spec fn excludes(names: Set<Seq<char>>, bound: Set<Seq<char>>) -> bool {
    forall|n: Seq<char>| #[trigger] names.contains(n) ==> !bound.contains(n)
}

proof fn lemma_excludes_union(a: Set<Seq<char>>, b: Set<Seq<char>>, bound: Set<Seq<char>>)
    requires
        excludes(a, bound),
        excludes(b, bound),
    ensures
        excludes(a.union(b), bound),
{
    assert forall|n: Seq<char>| #[trigger] a.union(b).contains(n) implies !bound.contains(n) by {
        if a.contains(n) {
        } else {
            assert(b.contains(n));
        }
    }
}

proof fn lemma_excludes_smaller(a: Set<Seq<char>>, big: Set<Seq<char>>, small: Set<Seq<char>>)
    requires
        excludes(a, big),
        small.subset_of(big),
    ensures
        excludes(a, small),
{
    assert forall|n: Seq<char>| #[trigger] a.contains(n) implies !small.contains(n) by {
        if small.contains(n) {
            assert(big.contains(n));
        }
    }
}

proof fn lemma_excludes_empty(bound: Set<Seq<char>>)
    ensures
        excludes(Set::empty(), bound),
{
}

/// A name that is bound where an expression stands is never among the
/// expression's free names: what a lambda captures is only what it reads
/// from outside.
pub proof fn lemma_free_vars_exclude_bound(expr: HirExpr, bound: Set<Seq<char>>)
    ensures
        excludes(spec_free_vars(expr, bound), bound),
    decreases expr,
{
    let result = spec_free_vars(expr, bound);
    match expr.kind {
        HirExprKind::Ident(name) => {
            if !bound.contains(name@) {
                assert forall|n: Seq<char>| #[trigger] result.contains(n) implies !bound.contains(n) by {
                    assert(n == name@);
                }
            }
        },
        HirExprKind::Block { body } => lemma_block_free_exclude(body@, bound),
        HirExprKind::Let { value, .. } => lemma_free_vars_exclude_bound(*value, bound),
        HirExprKind::Function { params, body, .. } => {
            let inner = bound.union(name_set_of(params@));
            lemma_free_vars_exclude_bound(*body, inner);
            lemma_excludes_smaller(spec_free_vars(*body, inner), inner, bound);
        },
        HirExprKind::Unary { expr, .. } => lemma_free_vars_exclude_bound(*expr, bound),
        HirExprKind::Binary { left, right, .. } => {
            lemma_free_vars_exclude_bound(*left, bound);
            lemma_free_vars_exclude_bound(*right, bound);
            lemma_excludes_union(spec_free_vars(*left, bound), spec_free_vars(*right, bound), bound);
        },
        HirExprKind::Assign { target, value, .. } => {
            lemma_free_vars_exclude_bound(*target, bound);
            lemma_free_vars_exclude_bound(*value, bound);
            lemma_excludes_union(spec_free_vars(*target, bound), spec_free_vars(*value, bound), bound);
        },
        HirExprKind::Call { callee, args } => {
            lemma_free_vars_exclude_bound(*callee, bound);
            lemma_args_free_exclude(args@, bound);
            lemma_excludes_union(spec_free_vars(*callee, bound), args_free_vars(args@, bound), bound);
        },
        HirExprKind::FieldAccess { base, .. } => lemma_free_vars_exclude_bound(*base, bound),
        HirExprKind::DerefAccess { base } => lemma_free_vars_exclude_bound(*base, bound),
        HirExprKind::Index { base, index } => {
            lemma_free_vars_exclude_bound(*base, bound);
            lemma_free_vars_exclude_bound(*index, bound);
            lemma_excludes_union(spec_free_vars(*base, bound), spec_free_vars(*index, bound), bound);
        },
        HirExprKind::Slice { base, start, end, .. } => {
            lemma_free_vars_exclude_bound(*base, bound);
            let a = match start { Some(e) => spec_free_vars(*e, bound), None => Set::empty() };
            let b = match end { Some(e) => spec_free_vars(*e, bound), None => Set::empty() };
            if let Some(e) = start {
                lemma_free_vars_exclude_bound(*e, bound);
            }
            if let Some(e) = end {
                lemma_free_vars_exclude_bound(*e, bound);
            }
            lemma_excludes_union(spec_free_vars(*base, bound), a, bound);
            lemma_excludes_union(spec_free_vars(*base, bound).union(a), b, bound);
        },
        HirExprKind::StructLiteral { fields, .. } => lemma_fields_free_exclude(fields@, bound),
        HirExprKind::EnumVariant { payload, .. } => lemma_exprs_free_exclude(payload@, bound),
        HirExprKind::If { condition, capture, then_branch, else_branch } => {
            let then_bound = bind_capture(bound, capture);
            lemma_free_vars_exclude_bound(*condition, bound);
            lemma_free_vars_exclude_bound(*then_branch, then_bound);
            lemma_excludes_smaller(spec_free_vars(*then_branch, then_bound), then_bound, bound);
            let c = match else_branch { Some(e) => spec_free_vars(*e, bound), None => Set::empty() };
            if let Some(e) = else_branch {
                lemma_free_vars_exclude_bound(*e, bound);
            }
            lemma_excludes_union(spec_free_vars(*condition, bound), spec_free_vars(*then_branch, then_bound), bound);
            lemma_excludes_union(
                spec_free_vars(*condition, bound).union(spec_free_vars(*then_branch, then_bound)),
                c,
                bound,
            );
        },
        HirExprKind::Match { value, arms } => {
            lemma_free_vars_exclude_bound(*value, bound);
            lemma_arms_free_exclude(arms@, bound);
            lemma_excludes_union(spec_free_vars(*value, bound), arms_free_vars(arms@, bound), bound);
        },
        HirExprKind::For(f) => match f {
            HirForExpr::Infinite { body } => lemma_free_vars_exclude_bound(*body, bound),
            HirForExpr::WhileLike { condition, body } => {
                lemma_free_vars_exclude_bound(*condition, bound);
                lemma_free_vars_exclude_bound(*body, bound);
                lemma_excludes_union(spec_free_vars(*condition, bound), spec_free_vars(*body, bound), bound);
            },
            HirForExpr::Range { start, end, binding, body, .. } => {
                let inner = bind_opt(bound, binding);
                lemma_free_vars_exclude_bound(*start, bound);
                lemma_free_vars_exclude_bound(*end, bound);
                lemma_free_vars_exclude_bound(*body, inner);
                lemma_excludes_smaller(spec_free_vars(*body, inner), inner, bound);
                lemma_excludes_union(spec_free_vars(*start, bound), spec_free_vars(*end, bound), bound);
                lemma_excludes_union(
                    spec_free_vars(*start, bound).union(spec_free_vars(*end, bound)),
                    spec_free_vars(*body, inner),
                    bound,
                );
            },
            HirForExpr::Iterate { iterable, binding, body } => {
                let inner = bind_opt(bound, binding);
                lemma_free_vars_exclude_bound(*iterable, bound);
                lemma_free_vars_exclude_bound(*body, inner);
                lemma_excludes_smaller(spec_free_vars(*body, inner), inner, bound);
                lemma_excludes_union(spec_free_vars(*iterable, bound), spec_free_vars(*body, inner), bound);
            },
        },
        HirExprKind::Break { value } => {
            if let Some(v) = value {
                lemma_free_vars_exclude_bound(*v, bound);
            }
        },
        HirExprKind::Return { value } => {
            if let Some(v) = value {
                lemma_free_vars_exclude_bound(*v, bound);
            }
        },
        HirExprKind::Defer { body, .. } => lemma_free_vars_exclude_bound(*body, bound),
        HirExprKind::OrElse { value, error_binding, fallback } => {
            let inner = bind_opt(bound, error_binding);
            lemma_free_vars_exclude_bound(*value, bound);
            lemma_free_vars_exclude_bound(*fallback, inner);
            lemma_excludes_smaller(spec_free_vars(*fallback, inner), inner, bound);
            lemma_excludes_union(spec_free_vars(*value, bound), spec_free_vars(*fallback, inner), bound);
        },
        HirExprKind::OptionalUnwrap { value } => lemma_free_vars_exclude_bound(*value, bound),
        HirExprKind::ErrorUnwrap { value } => lemma_free_vars_exclude_bound(*value, bound),
        HirExprKind::Comptime { expr } => lemma_free_vars_exclude_bound(*expr, bound),
        HirExprKind::Inline { expr } => lemma_free_vars_exclude_bound(*expr, bound),
        _ => {},
    }
}

proof fn lemma_block_free_exclude(s: Seq<HirExpr>, bound: Set<Seq<char>>)
    ensures
        excludes(block_free_vars(s, bound), bound),
    decreases s,
{
    if s.len() > 0 {
        let inner = bound.union(let_names(s.drop_last()));
        lemma_block_free_exclude(s.drop_last(), bound);
        lemma_free_vars_exclude_bound(s.last(), inner);
        lemma_excludes_smaller(spec_free_vars(s.last(), inner), inner, bound);
        lemma_excludes_union(block_free_vars(s.drop_last(), bound), spec_free_vars(s.last(), inner), bound);
    }
}

proof fn lemma_exprs_free_exclude(s: Seq<HirExpr>, bound: Set<Seq<char>>)
    ensures
        excludes(exprs_free_vars(s, bound), bound),
    decreases s,
{
    if s.len() > 0 {
        lemma_exprs_free_exclude(s.drop_last(), bound);
        lemma_free_vars_exclude_bound(s.last(), bound);
        lemma_excludes_union(exprs_free_vars(s.drop_last(), bound), spec_free_vars(s.last(), bound), bound);
    }
}

proof fn lemma_args_free_exclude(s: Seq<HirCallArg>, bound: Set<Seq<char>>)
    ensures
        excludes(args_free_vars(s, bound), bound),
    decreases s,
{
    if s.len() > 0 {
        lemma_args_free_exclude(s.drop_last(), bound);
        lemma_free_vars_exclude_bound(s.last().value, bound);
        lemma_excludes_union(args_free_vars(s.drop_last(), bound), spec_free_vars(s.last().value, bound), bound);
    }
}

proof fn lemma_fields_free_exclude(s: Seq<(String, HirExpr)>, bound: Set<Seq<char>>)
    ensures
        excludes(fields_free_vars(s, bound), bound),
    decreases s,
{
    if s.len() > 0 {
        lemma_fields_free_exclude(s.drop_last(), bound);
        lemma_free_vars_exclude_bound(s.last().1, bound);
        lemma_excludes_union(fields_free_vars(s.drop_last(), bound), spec_free_vars(s.last().1, bound), bound);
    }
}

proof fn lemma_arms_free_exclude(s: Seq<HirMatchArm>, bound: Set<Seq<char>>)
    ensures
        excludes(arms_free_vars(s, bound), bound),
    decreases s,
{
    if s.len() > 0 {
        let inner = bind_pattern(bound, s.last().pattern);
        lemma_arms_free_exclude(s.drop_last(), bound);
        let g = match s.last().guard { Some(g) => spec_free_vars(g, inner), None => Set::empty() };
        if let Some(e) = s.last().guard {
            lemma_free_vars_exclude_bound(e, inner);
            lemma_excludes_smaller(spec_free_vars(e, inner), inner, bound);
        }
        lemma_free_vars_exclude_bound(s.last().value, inner);
        lemma_excludes_smaller(spec_free_vars(s.last().value, inner), inner, bound);
        lemma_excludes_union(arms_free_vars(s.drop_last(), bound), g, bound);
        lemma_excludes_union(arms_free_vars(s.drop_last(), bound).union(g), spec_free_vars(s.last().value, inner), bound);
    }
}

} // verus!
