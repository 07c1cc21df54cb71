//! Compile-time evaluation of expressions: literals, types, locals, the
//! arithmetic and logic operators, blocks, conditionals, the `$`-builtins
//! that compute on types, and calls of functions whose bodies are known.
//!
//! Evaluation is bounded by a nesting depth: past 64 nested evaluations the
//! expression counts as not known at compile time.

use vstd::prelude::*;
use vstd::string::StringSliceAdditionalSpecFns;
use crate::ast::UnaryOp;
use crate::hir::{HirCallArg, HirExpr, HirExprKind, HirLiteral, HirLiteralView};
use crate::mir::{MirValue, MirValueId, MirValueType};
use crate::name_set::views;
use crate::function_lowerer::{FunctionLowerer, assoc_find, args_view, find_name, keys_unique, place_args};
use crate::lower_helpers::{
    ComptimeValue, ComptimeValueView, assoc_get, assoc_lookup, bool_value, builtin_offsetof_for_type_name,
    comptime_truthy, eval_comptime_binary, eval_comptime_cast, has_struct_field, int_value,
    layout_for_builtin_type_name, local_get, local_lookup, locals_view, parse_i64_literal,
    self_type_literal_from_param_hint, spec_comptime_truthy, spec_eval_comptime_binary,
    spec_eval_comptime_cast, spec_has_struct_field, spec_layout, spec_offsetof, spec_parse_i64_literal,
    spec_self_type_literal, spec_substitute_type_locals, spec_type_class, spec_type_literal_name_for_ident,
    substitute_type_locals, type_literal_name_for_ident, type_name_to_class,
};
use crate::text::{chars_of, string_from_str, chars_of_string, i64_to_string, push_decimal, push_string, spec_decimal, string_eq, string_eq_str, string_push, u64_to_string};

verus! {

/// Compile-time locals by value, in binding order.
pub type LocalsView = Seq<(Seq<char>, ComptimeValueView)>;

/// `l` with `name` bound to `v`: the first binding of `name` replaced, or a
/// new binding at the end.
pub open spec fn local_set(l: LocalsView, name: Seq<char>, v: ComptimeValueView) -> LocalsView
    decreases l.len(),
{
    if l.len() == 0 {
        seq![(name, v)]
    } else if l[0].0 == name {
        l.update(0, (name, v))
    } else {
        seq![l[0]] + local_set(l.drop_first(), name, v)
    }
}

proof fn lemma_local_set_at(l: LocalsView, name: Seq<char>, v: ComptimeValueView, i: int)
    requires
        0 <= i < l.len(),
        l[i].0 == name,
        forall|j: int| 0 <= j < i ==> (#[trigger] l[j]).0 != name,
    ensures
        local_set(l, name, v) == l.update(i, (name, v)),
    decreases i,
{
    if i > 0 {
        assert forall|j: int| 0 <= j < i - 1 implies (#[trigger] l.drop_first()[j]).0 != name by {
            assert(l.drop_first()[j] == l[j + 1]);
        }
        lemma_local_set_at(l.drop_first(), name, v, i - 1);
        assert(local_set(l, name, v) =~= l.update(i, (name, v)));
    }
}

proof fn lemma_local_set_none(l: LocalsView, name: Seq<char>, v: ComptimeValueView)
    requires
        forall|j: int| 0 <= j < l.len() ==> (#[trigger] l[j]).0 != name,
    ensures
        local_set(l, name, v) == l.push((name, v)),
    decreases l.len(),
{
    if l.len() > 0 {
        assert forall|j: int| 0 <= j < l.len() - 1 implies (#[trigger] l.drop_first()[j]).0 != name by {
            assert(l.drop_first()[j] == l[j + 1]);
        }
        lemma_local_set_none(l.drop_first(), name, v);
        assert(local_set(l, name, v) =~= l.push((name, v)));
    } else {
        assert(local_set(l, name, v) =~= l.push((name, v)));
    }
}

/// Binding a compile-time local and then reading it back: the name just
/// bound gives the value it was bound to, and every other name gives what
/// it gave before.
pub proof fn lemma_local_set_then_lookup(l: LocalsView, name: Seq<char>, v: ComptimeValueView, other: Seq<char>)
    ensures
        local_lookup(local_set(l, name, v), name) == Some(v),
        other != name ==> local_lookup(local_set(l, name, v), other) == local_lookup(l, other),
    decreases l.len(),
{
    if l.len() > 0 && l[0].0 != name {
        lemma_local_set_then_lookup(l.drop_first(), name, v, other);
        let t = local_set(l, name, v);
        assert(t[0] == l[0]);
        assert(t.drop_first() =~= local_set(l.drop_first(), name, v));
    } else if l.len() > 0 {
        let t = local_set(l, name, v);
        assert(t.drop_first() =~= l.drop_first());
    } else {
        let t = local_set(l, name, v);
        assert(t.drop_first() =~= l);
    }
}

/// The value of an optional compile-time value.
pub open spec fn opt_view(o: Option<ComptimeValue>) -> Option<ComptimeValueView> {
    match o {
        Some(v) => Some(v@),
        None => None,
    }
}

/// Compile-time values already worked out for MIR values, by value id.
pub type CacheView = Seq<(MirValueId, Option<ComptimeValueView>)>;

/// The entry for `id` in a cache: the first one recorded.
pub open spec fn cache_lookup(c: CacheView, id: MirValueId) -> Option<Option<ComptimeValueView>>
    decreases c.len(),
{
    if c.len() == 0 {
        None
    } else if c[0].0 == id {
        Some(c[0].1)
    } else {
        cache_lookup(c.drop_first(), id)
    }
}

/// `c` with the entry for `id` set to `v`: the first one replaced, or a new
/// one at the end.
pub open spec fn cache_set(c: CacheView, id: MirValueId, v: Option<ComptimeValueView>) -> CacheView
    decreases c.len(),
{
    if c.len() == 0 {
        seq![(id, v)]
    } else if c[0].0 == id {
        c.update(0, (id, v))
    } else {
        seq![c[0]] + cache_set(c.drop_first(), id, v)
    }
}

/// A cache by value.
pub open spec fn cache_view(c: Seq<(MirValueId, Option<ComptimeValue>)>) -> CacheView {
    c.map_values(|p: (MirValueId, Option<ComptimeValue>)| (p.0, opt_view(p.1)))
}

/// `vs` without `id`.
pub open spec fn without(vs: Seq<MirValueId>, id: MirValueId) -> Seq<MirValueId>
    decreases vs.len(),
{
    if vs.len() == 0 {
        vs
    } else if vs.last() != id {
        without(vs.drop_last(), id).push(vs.last())
    } else {
        without(vs.drop_last(), id)
    }
}

proof fn lemma_cache_set_at(c: CacheView, id: MirValueId, v: Option<ComptimeValueView>, i: int)
    requires
        0 <= i < c.len(),
        c[i].0 == id,
        forall|j: int| 0 <= j < i ==> (#[trigger] c[j]).0 != id,
    ensures
        cache_set(c, id, v) == c.update(i, (id, v)),
    decreases i,
{
    if i > 0 {
        assert forall|j: int| 0 <= j < i - 1 implies (#[trigger] c.drop_first()[j]).0 != id by {
            assert(c.drop_first()[j] == c[j + 1]);
        }
        lemma_cache_set_at(c.drop_first(), id, v, i - 1);
        assert(cache_set(c, id, v) =~= c.update(i, (id, v)));
    }
}

proof fn lemma_cache_set_none(c: CacheView, id: MirValueId, v: Option<ComptimeValueView>)
    requires
        forall|j: int| 0 <= j < c.len() ==> (#[trigger] c[j]).0 != id,
    ensures
        cache_set(c, id, v) == c.push((id, v)),
    decreases c.len(),
{
    if c.len() > 0 {
        assert forall|j: int| 0 <= j < c.len() - 1 implies (#[trigger] c.drop_first()[j]).0 != id by {
            assert(c.drop_first()[j] == c[j + 1]);
        }
        lemma_cache_set_none(c.drop_first(), id, v);
    }
    assert(cache_set(c, id, v) =~= c.push((id, v)));
}

impl FunctionLowerer {
    /// The end of evaluating value `id`: the result is cached and `id` is no
    /// longer being visited.
    pub open spec fn finish_value(id: MirValueId, e: Option<ComptimeValueView>, c: CacheView, w: Seq<MirValueId>)
        -> (Option<ComptimeValueView>, CacheView, Seq<MirValueId>)
    {
        (e, cache_set(c, id, e), without(w, id))
    }

    /// The compile-time value of MIR value `id` at depth `d`, read from the
    /// instruction that defines it, with the cache and the values being
    /// visited after it. A cached value is taken as it is; a value met again
    /// while it is being worked out has none; literals, type literals and
    /// function names are known; operators fold their known operands;
    /// assignments and casts pass their value on.
    pub open spec fn spec_eval_value(&self, id: MirValueId, d: int, cache: CacheView, vis: Seq<MirValueId>)
        -> (Option<ComptimeValueView>, CacheView, Seq<MirValueId>)
        decreases 70 - d,
    {
        if d > 64 {
            (None, cache, vis)
        } else {
            match cache_lookup(cache, id) {
                Some(c) => (c, cache, vis),
                None => if vis.contains(id) {
                    (None, cache, vis)
                } else {
                    let v1 = vis.push(id);
                    match self.def_of(id) {
                        Some(MirValue::Literal(lit)) => Self::finish_value(id, Some(ComptimeValueView::Literal(lit@)), cache, v1),
                        Some(MirValue::TypeLiteral(name)) => Self::finish_value(id, Some(ComptimeValueView::Type(name@)), cache, v1),
                        Some(MirValue::Ident(name)) => Self::finish_value(id,
                            if assoc_find(self.function_return_types@, name@) is Some || (match assoc_find(self.function_exprs@, name@) {
                                Some(e) => e.kind is Function,
                                None => false,
                            }) {
                                Some(ComptimeValueView::Function(name@))
                            } else {
                                None
                            }, cache, v1),
                        Some(MirValue::Unary { op, operand }) => {
                            let (o, c1, w1) = self.spec_eval_value(operand, d + 1, cache, v1);
                            match o {
                                None => (None, c1, w1),
                                Some(x) => Self::finish_value(id, spec_eval_unary(op, x), c1, w1),
                            }
                        },
                        Some(MirValue::Binary { op, left, right }) => {
                            let (a, c1, w1) = self.spec_eval_value(left, d + 1, cache, v1);
                            match a {
                                None => (None, c1, w1),
                                Some(x) => {
                                    let (b, c2, w2) = self.spec_eval_value(right, d + 1, c1, w1);
                                    match b {
                                        None => (None, c2, w2),
                                        Some(y) => Self::finish_value(id, spec_eval_comptime_binary(op, x, y), c2, w2),
                                    }
                                },
                            }
                        },
                        Some(MirValue::Assign { value, .. }) => {
                            let (o, c1, w1) = self.spec_eval_value(value, d + 1, cache, v1);
                            Self::finish_value(id, o, c1, w1)
                        },
                        Some(MirValue::LocalSet { value, .. }) => {
                            let (o, c1, w1) = self.spec_eval_value(value, d + 1, cache, v1);
                            Self::finish_value(id, o, c1, w1)
                        },
                        Some(MirValue::Cast { value, .. }) => {
                            let (o, c1, w1) = self.spec_eval_value(value, d + 1, cache, v1);
                            Self::finish_value(id, o, c1, w1)
                        },
                        _ => Self::finish_value(id, None, cache, v1),
                    }
                },
            }
        }
    }
}

/// An unsigned integer literal value.
pub open spec fn uint_value(n: nat) -> ComptimeValueView {
    ComptimeValueView::Literal(HirLiteralView::Integer(spec_decimal(n)))
}

/// A unary operator applied to a compile-time value: negation and bitwise
/// not of integers, logical not of booleans. Negating the least 64-bit
/// integer gives it back, as two's-complement negation does.
pub open spec fn spec_eval_unary(op: UnaryOp, v: ComptimeValueView) -> Option<ComptimeValueView> {
    match op {
        UnaryOp::Neg => match v {
            ComptimeValueView::Literal(HirLiteralView::Integer(t)) => match spec_parse_i64_literal(t) {
                Some(n) => Some(int_value(if n == i64::MIN as int { n } else { -n })),
                None => None,
            },
            _ => None,
        },
        UnaryOp::Not => match v {
            ComptimeValueView::Literal(HirLiteralView::Bool(b)) => Some(bool_value(!b)),
            _ => None,
        },
        UnaryOp::BitNot => match v {
            ComptimeValueView::Literal(HirLiteralView::Integer(t)) => match spec_parse_i64_literal(t) {
                Some(n) => Some(int_value(-n - 1)),
                None => None,
            },
            _ => None,
        },
        _ => None,
    }
}

/// The name of a MIR value type as compile-time code spells it; none for an
/// unknown type.
pub open spec fn spec_mir_type_name(t: MirValueType) -> Option<Seq<char>> {
    match t {
        MirValueType::Bool => Some("u1"@),
        MirValueType::BytesSlice => Some("[]u8"@),
        MirValueType::Int { signed, bits } => Some(seq![if signed { 'i' } else { 'u' }] + spec_decimal(bits as nat)),
        MirValueType::Float { bits } => Some(seq!['f'] + spec_decimal(bits as nat)),
        MirValueType::Type => Some("type"@),
        MirValueType::Function | MirValueType::FunctionPointer | MirValueType::Closure => Some("fn"@),
        MirValueType::Unknown => None,
    }
}

/// The type that `$typeof` gives a compile-time value.
pub open spec fn spec_value_type_name(v: ComptimeValueView) -> Seq<char> {
    match v {
        ComptimeValueView::Literal(HirLiteralView::Integer(_)) => "i32"@,
        ComptimeValueView::Literal(HirLiteralView::Float(_)) => "f64"@,
        ComptimeValueView::Literal(HirLiteralView::Bool(_)) => "u1"@,
        ComptimeValueView::Literal(HirLiteralView::Char(_)) => "u8"@,
        ComptimeValueView::Literal(HirLiteralView::String(_)) => "[]u8"@,
        ComptimeValueView::Literal(HirLiteralView::Null) => "unknown"@,
        ComptimeValueView::Type(_) => "type"@,
        ComptimeValueView::Function(_) => "fn"@,
    }
}

/// A type designator's name: a type's own name, `fn` for a function, empty
/// for anything else.
pub open spec fn designator_name(v: Option<ComptimeValueView>) -> Seq<char> {
    match v {
        Some(ComptimeValueView::Type(n)) => n,
        Some(ComptimeValueView::Function(_)) => "fn"@,
        _ => Seq::empty(),
    }
}

/// The name of the type a designator evaluates to: a type's own name, or
/// `fn` for a function.
pub open spec fn designator_opt(v: Option<ComptimeValueView>) -> Option<Seq<char>> {
    match v {
        Some(ComptimeValueView::Type(n)) => Some(n),
        Some(ComptimeValueView::Function(_)) => Some("fn"@),
        _ => None,
    }
}

/// Each argument's name with its position.
pub open spec fn indexed_args(args: Seq<HirCallArg>) -> Seq<(Option<Seq<char>>, usize)> {
    Seq::new(args.len(), |i: int| (match args[i].name {
        Some(n) => Some(n@),
        None => None,
    }, i as usize))
}

impl FunctionLowerer {
    /// The MIR type name of the local that `arg` names, where it is a local
    /// with a known type.
    pub open spec fn spec_local_type_name(&self, arg: HirExpr) -> Option<Seq<char>> {
        match arg.kind {
            HirExprKind::Ident(n) => match self.local(n@) {
                Some(id) => match self.type_of(id) {
                    Some(t) => spec_mir_type_name(t),
                    None => None,
                },
                None => None,
            },
            _ => None,
        }
    }

    /// What `$self()` names: the type of the first parameter where it has a
    /// type hint, else the enclosing struct, else `unknown`.
    pub open spec fn spec_self_name(&self) -> Seq<char> {
        let first: Option<String> = if self.current_param_type_hints@.len() > 0 {
            self.current_param_type_hints@[0]
        } else {
            None
        };
        match first {
            Some(h) => spec_self_type_literal(h@),
            None => match self.current_self_type_hint {
                Some(s) => s@,
                None => "unknown"@,
            },
        }
    }

    /// A field of `$target()`: whether sanitizers are on, and the tags of the
    /// optimisation mode, architecture and operating system.
    pub open spec fn spec_target_field(&self, base: HirExpr, field: Seq<char>) -> Option<ComptimeValueView> {
        match base.kind {
            HirExprKind::Call { callee, args } => match callee.kind {
                HirExprKind::Ident(n) => if n@ == "$target"@ && args@.len() == 0 {
                    if field == "sanitize"@ {
                        Some(bool_value(self.build_target.sanitize))
                    } else if field == "mode"@ {
                        Some(int_value(self.build_target.mode as int))
                    } else if field == "arch"@ {
                        Some(int_value(self.build_target.arch as int))
                    } else if field == "os"@ {
                        Some(int_value(self.build_target.os as int))
                    } else {
                        None
                    }
                } else {
                    None
                },
                _ => None,
            },
            _ => None,
        }
    }

    /// Evaluation one level deeper: what `spec_eval` gives at `d + 1`, which
    /// is nothing past the depth bound.
    pub open spec fn spec_eval_next(&self, e: HirExpr, d: int, lv: LocalsView) -> (Option<ComptimeValueView>, LocalsView)
        decreases 70 - d, 0int, 0int,
    {
        if d >= 64 {
            (None, lv)
        } else {
            self.spec_eval(e, d + 1, lv)
        }
    }

    /// The compile-time value of `e` at nesting depth `d` with locals `lv`,
    /// and the locals after it: a `let` or an assignment to a name binds it;
    /// blocks and branches keep their bindings to themselves.
    pub open spec fn spec_eval(&self, e: HirExpr, d: int, lv: LocalsView) -> (Option<ComptimeValueView>, LocalsView)
        decreases 70 - d, 5int, 0int,
    {
        if d > 64 {
            (None, lv)
        } else {
            match e.kind {
                HirExprKind::Literal(lit) => (Some(ComptimeValueView::Literal(lit@)), lv),
                HirExprKind::TypeLiteral(name) => (Some(ComptimeValueView::Type(spec_substitute_type_locals(name@, lv))), lv),
                HirExprKind::Ident(name) => match local_lookup(lv, name@) {
                    Some(v) => (Some(v), lv),
                    None => match spec_type_literal_name_for_ident(name@, self.named_type_literals@) {
                        Some(t) => (Some(ComptimeValueView::Type(t)), lv),
                        None => match assoc_find(self.function_exprs@, name@) {
                            Some(target) => if target.kind is Function {
                                (Some(ComptimeValueView::Function(name@)), lv)
                            } else {
                                (self.spec_eval_next(target, d, lv).0, lv)
                            },
                            None => (None, lv),
                        },
                    },
                },
                HirExprKind::Comptime { expr } => self.spec_eval_next(*expr, d, lv),
                HirExprKind::Inline { expr } => self.spec_eval_next(*expr, d, lv),
                HirExprKind::Unary { op, expr } => {
                    let (v, l1) = self.spec_eval_next(*expr, d, lv);
                    (match v {
                        Some(x) => spec_eval_unary(op, x),
                        None => None,
                    }, l1)
                },
                HirExprKind::Binary { op, left, right } => {
                    let (a, l1) = self.spec_eval_next(*left, d, lv);
                    match a {
                        None => (None, l1),
                        Some(x) => {
                            let (b, l2) = self.spec_eval_next(*right, d, l1);
                            match b {
                                None => (None, l2),
                                Some(y) => (spec_eval_comptime_binary(op, x, y), l2),
                            }
                        },
                    }
                },
                HirExprKind::Let { name, value, .. } => {
                    let (v, l1) = self.spec_eval_next(*value, d, lv);
                    match v {
                        None => (None, l1),
                        Some(x) => (Some(x), local_set(l1, name@, x)),
                    }
                },
                HirExprKind::Assign { target, value, .. } => match target.kind {
                    HirExprKind::Ident(name) => {
                        let (v, l1) = self.spec_eval_next(*value, d, lv);
                        match v {
                            None => (None, l1),
                            Some(x) => (Some(x), local_set(l1, name@, x)),
                        }
                    },
                    _ => (None, lv),
                },
                HirExprKind::Block { body } => (self.spec_block_items(body@, 0, d, lv, None), lv),
                HirExprKind::If { condition, capture, then_branch, else_branch } => {
                    let (c, l1) = self.spec_eval_next(*condition, d, lv);
                    match c {
                        None => (None, l1),
                        Some(cv) => match spec_comptime_truthy(cv) {
                            None => (None, l1),
                            Some(true) => {
                                let scope = match capture {
                                    Some(cap) => match cap.binding {
                                        Some(b) => if b@ != "_"@ { local_set(l1, b@, cv) } else { l1 },
                                        None => l1,
                                    },
                                    None => l1,
                                };
                                (self.spec_eval_next(*then_branch, d, scope).0, l1)
                            },
                            Some(false) => match else_branch {
                                Some(eb) => (self.spec_eval_next(*eb, d, l1).0, l1),
                                None => (None, l1),
                            },
                        },
                    }
                },
                HirExprKind::Return { value } => match value {
                    Some(v) => self.spec_eval_next(*v, d, lv),
                    None => (None, lv),
                },
                HirExprKind::Call { callee, args } => match callee.kind {
                    HirExprKind::Ident(name) => self.spec_eval_call(name@, args@, d, lv),
                    _ => (None, lv),
                },
                HirExprKind::FieldAccess { base, field } => (self.spec_target_field(*base, field@), lv),
                _ => (None, lv),
            }
        }
    }

    /// The items of a block evaluated in order from `i` in `scope`: the value
    /// of the last one, or of the first `return` met.
    pub open spec fn spec_block_items(&self, body: Seq<HirExpr>, i: int, d: int, scope: LocalsView, last: Option<ComptimeValueView>) -> Option<ComptimeValueView>
        decreases 70 - d, 1int, body.len() - i,
    {
        if i < 0 || i >= body.len() {
            last
        } else {
            match body[i].kind {
                HirExprKind::Return { value } => match value {
                    Some(v) => self.spec_eval_next(*v, d, scope).0,
                    None => None,
                },
                _ => {
                    let (r, s2) = self.spec_eval_next(body[i], d, scope);
                    self.spec_block_items(body, i + 1, d, s2, r)
                },
            }
        }
    }

    /// A call of the function named `name` with `args`, evaluated at depth `d`.
    pub open spec fn spec_eval_call(&self, name: Seq<char>, args: Seq<HirCallArg>, d: int, lv: LocalsView) -> (Option<ComptimeValueView>, LocalsView)
        decreases 70 - d, 4int, 0int,
    {
        if d > 64 {
            (None, lv)
        } else if name == "$sizeof"@ || name == "$alignof"@ {
            if args.len() != 1 {
                (None, lv)
            } else {
                match self.spec_type_name(args[0].value, d + 1, lv) {
                    None => (None, lv),
                    Some(t) => (Some(uint_value(if name == "$sizeof"@ { spec_layout(t).0 } else { spec_layout(t).1 })), lv),
                }
            }
        } else if name == "$offsetof"@ {
            if args.len() != 2 {
                (None, lv)
            } else {
                match self.spec_type_name(args[0].value, d + 1, lv) {
                    None => (None, lv),
                    Some(t) => match spec_offsetof(t, args[1].value.kind) {
                        None => (None, lv),
                        Some(o) => (Some(uint_value(o)), lv),
                    },
                }
            }
        } else if name == "$typeof"@ {
            if args.len() != 1 {
                (None, lv)
            } else {
                match self.spec_local_type_name(args[0].value) {
                    Some(tn) => (Some(ComptimeValueView::Type(tn)), lv),
                    None => {
                        let (v, l1) = self.spec_eval_next(args[0].value, d, lv);
                        (match v {
                            Some(x) => Some(ComptimeValueView::Type(spec_value_type_name(x))),
                            None => None,
                        }, l1)
                    },
                }
            }
        } else if name == "$as"@ {
            if args.len() != 2 {
                (None, lv)
            } else {
                match self.spec_type_name(args[0].value, d + 1, lv) {
                    None => (None, lv),
                    Some(t) => {
                        let (v, l1) = self.spec_eval_next(args[1].value, d, lv);
                        (match v {
                            Some(x) => spec_eval_comptime_cast(t, x),
                            None => None,
                        }, l1)
                    },
                }
            }
        } else if name == "$self"@ {
            if args.len() != 0 {
                (None, lv)
            } else {
                (Some(ComptimeValueView::Type(self.spec_self_name())), lv)
            }
        } else if name == "$is_uint"@ || name == "$is_sint"@ || name == "$is_float"@ {
            if args.len() != 1 {
                (None, lv)
            } else {
                let tn = designator_name(self.spec_eval_next(args[0].value, d, lv).0);
                let b = if name == "$is_uint"@ {
                    tn == "u8"@ || tn == "u16"@ || tn == "u32"@ || tn == "u64"@ || tn == "usize"@
                } else if name == "$is_sint"@ {
                    tn == "i8"@ || tn == "i16"@ || tn == "i32"@ || tn == "i64"@
                } else {
                    tn == "f32"@ || tn == "f64"@
                };
                (Some(bool_value(b)), lv)
            }
        } else if name == "$typeclass"@ {
            if args.len() != 1 {
                (None, lv)
            } else {
                let tn = designator_name(self.spec_eval_next(args[0].value, d, lv).0);
                (Some(ComptimeValueView::Type(spec_type_class(tn))), lv)
            }
        } else if name == "$has_method"@ || name == "$has_field"@ {
            if args.len() != 2 {
                (None, lv)
            } else {
                let (ty, l1) = match args[0].value.kind {
                    HirExprKind::Ident(n) => (match local_lookup(lv, n@) {
                        Some(ComptimeValueView::Type(t)) => Some(t),
                        _ => Some(n@),
                    }, lv),
                    _ => {
                        let (v, l1) = self.spec_eval_next(args[0].value, d, lv);
                        (match v {
                            Some(ComptimeValueView::Type(t)) => Some(t),
                            _ => None,
                        }, l1)
                    },
                };
                match ty {
                    None => (None, l1),
                    Some(t) => match args[1].value.kind {
                        HirExprKind::Literal(HirLiteral::String(m)) => {
                            let exists = if name == "$has_method"@ {
                                assoc_find(self.function_exprs@, t + "__"@ + m@) is Some
                            } else {
                                spec_has_struct_field(match assoc_lookup(self.named_type_literals@, t) {
                                    Some(dsc) => dsc,
                                    None => t,
                                }, m@)
                            };
                            (Some(bool_value(exists)), l1)
                        },
                        _ => (None, l1),
                    },
                }
            }
        } else if name == "$typename"@ {
            if args.len() != 1 {
                (None, lv)
            } else {
                match self.spec_type_name(args[0].value, d + 1, lv) {
                    None => (None, lv),
                    Some(t) => (Some(ComptimeValueView::Literal(HirLiteralView::String(t))), lv),
                }
            }
        } else {
            self.spec_named_call(name, args, d + 1, lv)
        }
    }

    /// The type that `e` designates at depth `d`: a type literal with the
    /// locals substituted, a name bound to a type, a named type, the type a
    /// named constant evaluates to, else the name itself; for any other
    /// expression, the type it evaluates to.
    pub open spec fn spec_type_name(&self, e: HirExpr, d: int, lv: LocalsView) -> Option<Seq<char>>
        decreases 70 - d, 3int, 0int,
    {
        match e.kind {
            HirExprKind::TypeLiteral(name) => Some(spec_substitute_type_locals(name@, lv)),
            HirExprKind::Ident(name) => match local_lookup(lv, name@) {
                Some(ComptimeValueView::Type(t)) => Some(t),
                _ => match spec_type_literal_name_for_ident(name@, self.named_type_literals@) {
                    Some(r) => Some(r),
                    None => match assoc_find(self.function_exprs@, name@) {
                        Some(target) => match self.spec_eval_next(target, d, lv).0 {
                            Some(ComptimeValueView::Type(t)) => Some(t),
                            _ => Some(name@),
                        },
                        None => Some(name@),
                    },
                },
            },
            _ => match self.spec_eval_next(e, d, lv).0 {
                Some(ComptimeValueView::Type(n)) => Some(n),
                _ => None,
            },
        }
    }

    /// A call of a named function at depth `d` from a caller with locals
    /// `caller`: the function bound to a local of that name where there is
    /// one, else the module's function; its body evaluated with the
    /// parameters bound to the arguments, or to their defaults.
    pub open spec fn spec_named_call(&self, name: Seq<char>, args: Seq<HirCallArg>, d: int, caller: LocalsView) -> (Option<ComptimeValueView>, LocalsView)
        decreases 70 - d, 2int, 0int,
    {
        let (resolved, from_local) = match local_lookup(caller, name) {
            Some(ComptimeValueView::Function(f)) => (f, true),
            _ => (name, false),
        };
        let found: Option<(HirExpr, bool)> = if from_local {
            match assoc_find(self.comptime_local_function_exprs@, resolved) {
                Some(t) => Some((t, true)),
                None => match assoc_find(self.function_exprs@, resolved) {
                    Some(t) => Some((t, false)),
                    None => None,
                },
            }
        } else {
            match assoc_find(self.function_exprs@, resolved) {
                Some(t) => Some((t, false)),
                None => None,
            }
        };
        match found {
            None => (None, caller),
            Some((target, captures)) => match target.kind {
                HirExprKind::Function { params, param_defaults, body, .. } => if args.len() > params@.len() {
                    (None, caller)
                } else {
                    let ordered = place_args(views(params@), indexed_args(args)).0;
                    let init = if captures { caller } else { Seq::empty() };
                    let (ls, c2) = self.spec_eval_params(params@, param_defaults@, ordered, args, 0, d, caller, init);
                    match ls {
                        None => (None, c2),
                        Some(l) => (self.spec_eval_next(*body, d, l).0, c2),
                    }
                },
                _ => if args.len() != 0 {
                    (None, caller)
                } else {
                    (self.spec_eval_next(target, d, Seq::empty()).0, caller)
                },
            },
        }
    }

    /// The parameters from `idx` on bound in `locals`, each to the argument
    /// placed in its slot (evaluated in the caller's locals) or to its
    /// default (evaluated in the callee's); none where a parameter has
    /// neither or a value is not known.
    pub open spec fn spec_eval_params(&self, params: Seq<String>, defaults: Seq<Option<HirExpr>>, ordered: Seq<Option<usize>>,
        args: Seq<HirCallArg>, idx: int, d: int, caller: LocalsView, locals: LocalsView) -> (Option<LocalsView>, LocalsView)
        decreases 70 - d, 1int, params.len() - idx,
    {
        if idx < 0 || idx >= params.len() {
            (Some(locals), caller)
        } else {
            let slot = if idx < ordered.len() { ordered[idx] } else { None };
            match slot {
                Some(ai) => if (ai as int) < args.len() {
                    let (v, c2) = self.spec_eval_next(args[ai as int].value, d, caller);
                    match v {
                        None => (None, c2),
                        Some(x) => self.spec_eval_params(params, defaults, ordered, args, idx + 1, d, c2, local_set(locals, params[idx]@, x)),
                    }
                } else {
                    (None, caller)
                },
                None => match (if idx < defaults.len() { defaults[idx] } else { None }) {
                    Some(def) => {
                        let (v, l2) = self.spec_eval_next(def, d, locals);
                        match v {
                            None => (None, caller),
                            Some(x) => self.spec_eval_params(params, defaults, ordered, args, idx + 1, d, caller, local_set(l2, params[idx]@, x)),
                        }
                    },
                    None => (None, caller),
                },
            }
        }
    }
}


/// A copy of a compile-time value.
pub fn copy_value(v: &ComptimeValue) -> (r: ComptimeValue)
    ensures
        r@ == v@,
{
    match v {
        ComptimeValue::Literal(l) => ComptimeValue::Literal(FunctionLowerer::copy_literal(l)),
        ComptimeValue::Type(t) => ComptimeValue::Type(t.clone()),
        ComptimeValue::Function(f) => ComptimeValue::Function(f.clone()),
    }
}

/// A copy of compile-time locals.
pub fn clone_locals(l: &Vec<(String, ComptimeValue)>) -> (r: Vec<(String, ComptimeValue)>)
    ensures
        locals_view(r@) == locals_view(l@),
{
    let mut r: Vec<(String, ComptimeValue)> = Vec::new();
    let mut i: usize = 0;
    while i < l.len()
        invariant
            i <= l@.len(),
            r@.len() == i,
            locals_view(r@) =~= locals_view(l@).take(i as int),
        decreases l.len() - i,
    {
        let name = l[i].0.clone();
        let value = copy_value(&l[i].1);
        assert((name@, value@) == locals_view(l@)[i as int]);
        r.push((name, value));
        assert(locals_view(r@)[i as int] == locals_view(l@)[i as int]);
        i = i + 1;
        assert(locals_view(r@) =~= locals_view(l@).take(i as int));
    }
    assert(locals_view(l@).take(l@.len() as int) =~= locals_view(l@));
    r
}

/// Binds `name` to `value` in the compile-time locals, in place of its
/// first binding or after the others.
pub fn set_comptime_local(locals: &mut Vec<(String, ComptimeValue)>, name: String, value: ComptimeValue)
    ensures
        locals_view(final(locals)@) == local_set(locals_view(old(locals)@), name@, value@),
{
    let ghost lv = locals_view(locals@);
    let mut i: usize = 0;
    while i < locals.len()
        invariant
            i <= locals@.len(),
            locals@ == old(locals)@,
            lv == locals_view(old(locals)@),
            forall|j: int| 0 <= j < i ==> (#[trigger] lv[j]).0 != name@,
        decreases locals.len() - i,
    {
        if string_eq(&locals[i].0, &name) {
            proof { lemma_local_set_at(lv, name@, value@, i as int); }
            let ghost nv = value@;
            locals.set(i, (name, value));
            assert(locals_view(locals@) =~= lv.update(i as int, (name@, nv)));
            return;
        }
        i = i + 1;
    }
    proof { lemma_local_set_none(lv, name@, value@); }
    let ghost nv = value@;
    let ghost nn = name@;
    locals.push((name, value));
    assert(locals_view(locals@) =~= lv.push((nn, nv)));
}

/// A unary operator applied to a compile-time value.
pub fn eval_comptime_unary(op: UnaryOp, v: &ComptimeValue) -> (r: Option<ComptimeValue>)
    ensures
        opt_view(r) == spec_eval_unary(op, v@),
{
    match op {
        UnaryOp::Neg => match v {
            ComptimeValue::Literal(HirLiteral::Integer(t)) => match parse_i64_literal(t.as_str()) {
                Some(n) => {
                    let m: i64 = if n == i64::MIN { n } else { -n };
                    Some(ComptimeValue::Literal(HirLiteral::Integer(i64_to_string(m))))
                },
                None => None,
            },
            _ => None,
        },
        UnaryOp::Not => match v {
            ComptimeValue::Literal(HirLiteral::Bool(b)) => Some(ComptimeValue::Literal(HirLiteral::Bool(!*b))),
            _ => None,
        },
        UnaryOp::BitNot => match v {
            ComptimeValue::Literal(HirLiteral::Integer(t)) => match parse_i64_literal(t.as_str()) {
                Some(n) => Some(ComptimeValue::Literal(HirLiteral::Integer(i64_to_string(-1 - n)))),
                None => None,
            },
            _ => None,
        },
        _ => None,
    }
}

/// The name of a MIR value type as compile-time code spells it.
pub fn mir_type_name(t: &MirValueType) -> (r: Option<String>)
    ensures
        match spec_mir_type_name(*t) {
            None => r is None,
            Some(n) => r matches Some(x) && x@ == n,
        },
{
    match t {
        MirValueType::Bool => Some(string_from_str("u1")),
        MirValueType::BytesSlice => Some(string_from_str("[]u8")),
        MirValueType::Int { signed, bits } => {
            let mut out = String::new();
            string_push(&mut out, if *signed { 'i' } else { 'u' });
            push_decimal(&mut out, *bits as u64);
            Some(out)
        },
        MirValueType::Float { bits } => {
            let mut out = String::new();
            string_push(&mut out, 'f');
            push_decimal(&mut out, *bits as u64);
            Some(out)
        },
        MirValueType::Type => Some(string_from_str("type")),
        MirValueType::Function | MirValueType::FunctionPointer | MirValueType::Closure => Some(string_from_str("fn")),
        MirValueType::Unknown => None,
    }
}

/// The type that `$typeof` gives a compile-time value.
pub fn value_type_name(v: &ComptimeValue) -> (r: String)
    ensures
        r@ == spec_value_type_name(v@),
{
    match v {
        ComptimeValue::Literal(HirLiteral::Integer(_)) => string_from_str("i32"),
        ComptimeValue::Literal(HirLiteral::Float(_)) => string_from_str("f64"),
        ComptimeValue::Literal(HirLiteral::Bool(_)) => string_from_str("u1"),
        ComptimeValue::Literal(HirLiteral::Char(_)) => string_from_str("u8"),
        ComptimeValue::Literal(HirLiteral::String(_)) => string_from_str("[]u8"),
        ComptimeValue::Literal(HirLiteral::Null) => string_from_str("unknown"),
        ComptimeValue::Type(_) => string_from_str("type"),
        ComptimeValue::Function(_) => string_from_str("fn"),
    }
}

impl FunctionLowerer {
    /// The name of the type that `expr` designates, evaluated from depth zero
    /// in a copy of `locals`: a type's own name, or `fn` for a function.
    pub fn eval_type_designator_name(&self, expr: &HirExpr, locals: &Vec<(String, ComptimeValue)>) -> (r: Option<String>)
        requires
            keys_unique(self.locals@),
        ensures
            match designator_opt(self.spec_eval(*expr, 0, locals_view(locals@)).0) {
                None => r is None,
                Some(n) => r matches Some(x) && x@ == n,
            },
    {
        let mut scope = clone_locals(locals);
        match self.try_eval_comptime_expr_with_locals(expr, 0, &mut scope) {
            Some(ComptimeValue::Type(n)) => Some(n),
            Some(ComptimeValue::Function(_)) => Some(string_from_str("fn")),
            _ => None,
        }
    }

    /// The MIR type name of the local that `arg` names.
    fn local_type_name(&self, arg: &HirExpr) -> (r: Option<String>)
        requires
            keys_unique(self.locals@),
        ensures
            match self.spec_local_type_name(*arg) {
                None => r is None,
                Some(n) => r matches Some(x) && x@ == n,
            },
    {
        match &arg.kind {
            HirExprKind::Ident(n) => match self.get_local(n.as_str()) {
                Some(id) => match self.value_type(id) {
                    Some(t) => mir_type_name(&t),
                    None => None,
                },
                None => None,
            },
            _ => None,
        }
    }

    /// What `$self()` names.
    fn self_name(&self) -> (r: String)
        ensures
            r@ == self.spec_self_name(),
    {
        if self.current_param_type_hints.len() > 0 {
            match &self.current_param_type_hints[0] {
                Some(h) => { return self_type_literal_from_param_hint(h.as_str()); },
                None => {},
            }
        }
        match &self.current_self_type_hint {
            Some(t) => t.clone(),
            None => string_from_str("unknown"),
        }
    }

    /// A field of `$target()`.
    fn target_field(&self, base: &HirExpr, field: &String) -> (r: Option<ComptimeValue>)
        ensures
            opt_view(r) == self.spec_target_field(*base, field@),
    {
        match &base.kind {
            HirExprKind::Call { callee, args } => match &callee.kind {
                HirExprKind::Ident(n) => if string_eq_str(n, "$target") && args.len() == 0 {
                    if string_eq_str(field, "sanitize") {
                        Some(ComptimeValue::Literal(HirLiteral::Bool(self.build_target.sanitize)))
                    } else if string_eq_str(field, "mode") {
                        Some(ComptimeValue::Literal(HirLiteral::Integer(i64_to_string(self.build_target.mode))))
                    } else if string_eq_str(field, "arch") {
                        Some(ComptimeValue::Literal(HirLiteral::Integer(i64_to_string(self.build_target.arch))))
                    } else if string_eq_str(field, "os") {
                        Some(ComptimeValue::Literal(HirLiteral::Integer(i64_to_string(self.build_target.os))))
                    } else {
                        None
                    }
                } else {
                    None
                },
                _ => None,
            },
            _ => None,
        }
    }

    /// Evaluates `e` one level deeper than `depth`.
    fn eval_next(&self, e: &HirExpr, depth: usize, locals: &mut Vec<(String, ComptimeValue)>) -> (r: Option<ComptimeValue>)
        requires
            keys_unique(self.locals@),
        ensures
            opt_view(r) == self.spec_eval_next(*e, depth as int, locals_view(old(locals)@)).0,
            locals_view(final(locals)@) == self.spec_eval_next(*e, depth as int, locals_view(old(locals)@)).1,
        decreases 70 - depth, 0int, 0int,
    {
        if depth >= 64 {
            None
        } else {
            self.try_eval_comptime_expr_with_locals(e, depth + 1, locals)
        }
    }

    /// The compile-time value of `expr` at nesting depth `depth`, with the
    /// compile-time locals `locals`, which a `let` or an assignment to a
    /// name updates. `None` where the value is not known at compile time, a
    /// condition is a float literal, or the nesting passes the depth bound.
    pub fn try_eval_comptime_expr_with_locals(&self, expr: &HirExpr, depth: usize, locals: &mut Vec<(String, ComptimeValue)>) -> (r: Option<ComptimeValue>)
        requires
            keys_unique(self.locals@),
        ensures
            opt_view(r) == self.spec_eval(*expr, depth as int, locals_view(old(locals)@)).0,
            locals_view(final(locals)@) == self.spec_eval(*expr, depth as int, locals_view(old(locals)@)).1,
        decreases 70 - depth, 5int, 0int,
    {
        if depth > 64 {
            return None;
        }
        match &expr.kind {
            HirExprKind::Literal(lit) => Some(ComptimeValue::Literal(FunctionLowerer::copy_literal(lit))),
            HirExprKind::TypeLiteral(name) => Some(ComptimeValue::Type(substitute_type_locals(name.as_str(), locals))),
            HirExprKind::Ident(name) => {
                let key = chars_of_string(name);
                match local_get(locals, &key) {
                    Some(v) => { return Some(copy_value(v)); },
                    None => {},
                }
                match type_literal_name_for_ident(name, &self.named_type_literals) {
                    Some(t) => { return Some(ComptimeValue::Type(t)); },
                    None => {},
                }
                match find_name(&self.function_exprs, name.as_str()) {
                    Some(i) => {
                        let target = &self.function_exprs[i].1;
                        if let HirExprKind::Function { .. } = &target.kind {
                            Some(ComptimeValue::Function(name.clone()))
                        } else {
                            let mut scope = clone_locals(locals);
                            self.eval_next(target, depth, &mut scope)
                        }
                    },
                    None => None,
                }
            },
            HirExprKind::Comptime { expr } => self.eval_next(expr, depth, locals),
            HirExprKind::Inline { expr } => self.eval_next(expr, depth, locals),
            HirExprKind::Unary { op, expr } => {
                let v = self.eval_next(expr, depth, locals);
                match v {
                    Some(x) => eval_comptime_unary(*op, &x),
                    None => None,
                }
            },
            HirExprKind::Binary { op, left, right } => {
                let a = self.eval_next(left, depth, locals);
                match a {
                    None => None,
                    Some(x) => {
                        let b = self.eval_next(right, depth, locals);
                        match b {
                            None => None,
                            Some(y) => eval_comptime_binary(*op, x, y),
                        }
                    },
                }
            },
            HirExprKind::Let { name, value, .. } => {
                let v = self.eval_next(value, depth, locals);
                match v {
                    None => None,
                    Some(x) => {
                        set_comptime_local(locals, name.clone(), copy_value(&x));
                        Some(x)
                    },
                }
            },
            HirExprKind::Assign { target, value, .. } => match &target.kind {
                HirExprKind::Ident(name) => {
                    let v = self.eval_next(value, depth, locals);
                    match v {
                        None => None,
                        Some(x) => {
                            set_comptime_local(locals, name.clone(), copy_value(&x));
                            Some(x)
                        },
                    }
                },
                _ => None,
            },
            HirExprKind::Block { body } => {
                let mut scope = clone_locals(locals);
                let mut last: Option<ComptimeValue> = None;
                let mut i: usize = 0;
                assert(self.spec_eval(*expr, depth as int, locals_view(locals@)).0
                    == self.spec_block_items(body@, 0, depth as int, locals_view(locals@), None));
                while i < body.len()
                    invariant
                        i <= body@.len(),
                        depth <= 64,
                        expr.kind == (HirExprKind::Block { body: *body }),
                        self.spec_eval(*expr, depth as int, locals_view(old(locals)@)).0
                            == self.spec_block_items(body@, 0, depth as int, locals_view(locals@), None),
                        keys_unique(self.locals@),
                        locals@ == old(locals)@,
                        self.spec_block_items(body@, 0, depth as int, locals_view(locals@), None)
                            == self.spec_block_items(body@, i as int, depth as int, locals_view(scope@), opt_view(last)),
                    decreases body.len() - i,
                {
                    let item = &body[i];
                    if let HirExprKind::Return { value } = &item.kind {
                        assert(body@[i as int] == *item);
                        match value {
                            Some(v) => {
                                assert(self.spec_block_items(body@, i as int, depth as int, locals_view(scope@), opt_view(last))
                                    == self.spec_eval_next(**v, depth as int, locals_view(scope@)).0);
                                return self.eval_next(v, depth, &mut scope);
                            },
                            None => {
                                assert(self.spec_block_items(body@, i as int, depth as int, locals_view(scope@), opt_view(last)) is None);
                                return None;
                            },
                        }
                    }
                    last = self.eval_next(item, depth, &mut scope);
                    i = i + 1;
                }
                last
            },
            HirExprKind::If { condition, capture, then_branch, else_branch } => {
                let c = self.eval_next(condition, depth, locals);
                match c {
                    None => None,
                    Some(cv) => match comptime_truthy(&cv) {
                        None => None,
                        Some(true) => {
                            let mut scope = clone_locals(locals);
                            match capture {
                                Some(cap) => match &cap.binding {
                                    Some(b) => {
                                        if !string_eq_str(b, "_") {
                                            set_comptime_local(&mut scope, b.clone(), copy_value(&cv));
                                        }
                                    },
                                    None => {},
                                },
                                None => {},
                            }
                            self.eval_next(then_branch, depth, &mut scope)
                        },
                        Some(false) => match else_branch {
                            Some(eb) => {
                                let mut scope = clone_locals(locals);
                                self.eval_next(eb, depth, &mut scope)
                            },
                            None => None,
                        },
                    },
                }
            },
            HirExprKind::Return { value } => match value {
                Some(v) => self.eval_next(v, depth, locals),
                None => None,
            },
            HirExprKind::Call { callee, args } => match &callee.kind {
                HirExprKind::Ident(name) => self.eval_comptime_call(name, args, depth, locals),
                _ => None,
            },
            HirExprKind::FieldAccess { base, field } => self.target_field(base, field),
            _ => None,
        }
    }
}

impl FunctionLowerer {
    /// The name a type designator evaluates to, in a copy of the locals.
    fn designator(&self, e: &HirExpr, depth: usize, locals: &Vec<(String, ComptimeValue)>) -> (r: String)
        requires
            keys_unique(self.locals@),
        ensures
            r@ == designator_name(self.spec_eval_next(*e, depth as int, locals_view(locals@)).0),
        decreases 70 - depth, 1int, 0int,
    {
        let mut scope = clone_locals(locals);
        match self.eval_next(e, depth, &mut scope) {
            Some(ComptimeValue::Type(n)) => n,
            Some(ComptimeValue::Function(_)) => string_from_str("fn"),
            _ => String::new(),
        }
    }

    /// A call of the function named `name` evaluated at compile time.
    fn eval_comptime_call(&self, name: &String, args: &Vec<HirCallArg>, depth: usize, locals: &mut Vec<(String, ComptimeValue)>) -> (r: Option<ComptimeValue>)
        requires
            keys_unique(self.locals@),
        ensures
            opt_view(r) == self.spec_eval_call(name@, args@, depth as int, locals_view(old(locals)@)).0,
            locals_view(final(locals)@) == self.spec_eval_call(name@, args@, depth as int, locals_view(old(locals)@)).1,
        decreases 70 - depth, 4int, 0int,
    {
        if depth > 64 {
            return None;
        }
        if string_eq_str(name, "$sizeof") || string_eq_str(name, "$alignof") {
            if args.len() != 1 {
                return None;
            }
            match self.comptime_type_name_from_expr_with_locals(&args[0].value, depth + 1, locals) {
                None => None,
                Some(t) => {
                    let (size, align) = layout_for_builtin_type_name(t.as_str());
                    let out = if string_eq_str(name, "$sizeof") { size } else { align };
                    Some(ComptimeValue::Literal(HirLiteral::Integer(u64_to_string(out))))
                },
            }
        } else if string_eq_str(name, "$offsetof") {
            if args.len() != 2 {
                return None;
            }
            match self.comptime_type_name_from_expr_with_locals(&args[0].value, depth + 1, locals) {
                None => None,
                Some(t) => match builtin_offsetof_for_type_name(t.as_str(), &args[1].value) {
                    None => None,
                    Some(o) => Some(ComptimeValue::Literal(HirLiteral::Integer(u64_to_string(o)))),
                },
            }
        } else if string_eq_str(name, "$typeof") {
            if args.len() != 1 {
                return None;
            }
            match self.local_type_name(&args[0].value) {
                Some(tn) => { return Some(ComptimeValue::Type(tn)); },
                None => {},
            }
            let v = self.eval_next(&args[0].value, depth, locals);
            match v {
                Some(x) => Some(ComptimeValue::Type(value_type_name(&x))),
                None => None,
            }
        } else if string_eq_str(name, "$as") {
            if args.len() != 2 {
                return None;
            }
            match self.comptime_type_name_from_expr_with_locals(&args[0].value, depth + 1, locals) {
                None => None,
                Some(t) => {
                    let v = self.eval_next(&args[1].value, depth, locals);
                    match v {
                        Some(x) => eval_comptime_cast(t.as_str(), x),
                        None => None,
                    }
                },
            }
        } else if string_eq_str(name, "$self") {
            if args.len() != 0 {
                return None;
            }
            Some(ComptimeValue::Type(self.self_name()))
        } else if string_eq_str(name, "$is_uint") || string_eq_str(name, "$is_sint") || string_eq_str(name, "$is_float") {
            if args.len() != 1 {
                return None;
            }
            let tn = self.designator(&args[0].value, depth, locals);
            let b = if string_eq_str(name, "$is_uint") {
                string_eq_str(&tn, "u8") || string_eq_str(&tn, "u16") || string_eq_str(&tn, "u32")
                    || string_eq_str(&tn, "u64") || string_eq_str(&tn, "usize")
            } else if string_eq_str(name, "$is_sint") {
                string_eq_str(&tn, "i8") || string_eq_str(&tn, "i16") || string_eq_str(&tn, "i32") || string_eq_str(&tn, "i64")
            } else {
                string_eq_str(&tn, "f32") || string_eq_str(&tn, "f64")
            };
            Some(ComptimeValue::Literal(HirLiteral::Bool(b)))
        } else if string_eq_str(name, "$typeclass") {
            if args.len() != 1 {
                return None;
            }
            let tn = self.designator(&args[0].value, depth, locals);
            Some(ComptimeValue::Type(string_from_str(type_name_to_class(tn.as_str()))))
        } else if string_eq_str(name, "$has_method") || string_eq_str(name, "$has_field") {
            if args.len() != 2 {
                return None;
            }
            let ty: Option<String> = match &args[0].value.kind {
                HirExprKind::Ident(n) => {
                    let key = chars_of_string(n);
                    match local_get(locals, &key) {
                        Some(ComptimeValue::Type(t)) => Some(t.clone()),
                        _ => Some(n.clone()),
                    }
                },
                _ => {
                    let v = self.eval_next(&args[0].value, depth, locals);
                    match v {
                        Some(ComptimeValue::Type(t)) => Some(t),
                        _ => None,
                    }
                },
            };
            match ty {
                None => None,
                Some(t) => match &args[1].value.kind {
                    HirExprKind::Literal(HirLiteral::String(m)) => {
                        let exists = if string_eq_str(name, "$has_method") {
                            let mut key = t.clone();
                            push_string(&mut key, &string_from_str("__"));
                            push_string(&mut key, m);
                            find_name(&self.function_exprs, key.as_str()).is_some()
                        } else {
                            let descriptor = match assoc_get(&self.named_type_literals, &t) {
                                Some(dsc) => dsc,
                                None => t.clone(),
                            };
                            has_struct_field(descriptor.as_str(), m.as_str())
                        };
                        Some(ComptimeValue::Literal(HirLiteral::Bool(exists)))
                    },
                    _ => None,
                },
            }
        } else if string_eq_str(name, "$typename") {
            if args.len() != 1 {
                return None;
            }
            match self.comptime_type_name_from_expr_with_locals(&args[0].value, depth + 1, locals) {
                None => None,
                Some(t) => Some(ComptimeValue::Literal(HirLiteral::String(t))),
            }
        } else {
            self.try_eval_named_comptime_call(name.as_str(), args, depth + 1, locals)
        }
    }

    /// The type that `expr` designates at compile time: a type literal with
    /// the locals substituted, a name bound to a type, a named type, the type
    /// a named constant evaluates to, else the name itself; for any other
    /// expression, the type it evaluates to, if it evaluates to one.
    pub fn comptime_type_name_from_expr_with_locals(&self, expr: &HirExpr, depth: usize, locals: &Vec<(String, ComptimeValue)>) -> (r: Option<String>)
        requires
            keys_unique(self.locals@),
        ensures
            match self.spec_type_name(*expr, depth as int, locals_view(locals@)) {
                None => r is None,
                Some(t) => r matches Some(x) && x@ == t,
            },
        decreases 70 - depth, 3int, 0int,
    {
        match &expr.kind {
            HirExprKind::TypeLiteral(name) => Some(substitute_type_locals(name.as_str(), locals)),
            HirExprKind::Ident(name) => {
                let key = chars_of_string(name);
                match local_get(locals, &key) {
                    Some(ComptimeValue::Type(t)) => { return Some(t.clone()); },
                    _ => {},
                }
                match type_literal_name_for_ident(name, &self.named_type_literals) {
                    Some(r) => { return Some(r); },
                    None => {},
                }
                match find_name(&self.function_exprs, name.as_str()) {
                    Some(i) => {
                        let mut scope = clone_locals(locals);
                        match self.eval_next(&self.function_exprs[i].1, depth, &mut scope) {
                            Some(ComptimeValue::Type(t)) => Some(t),
                            _ => Some(name.clone()),
                        }
                    },
                    None => Some(name.clone()),
                }
            },
            _ => {
                let mut scope = clone_locals(locals);
                match self.eval_next(expr, depth, &mut scope) {
                    Some(ComptimeValue::Type(n)) => Some(n),
                    _ => None,
                }
            },
        }
    }

    /// Binds the parameters from `idx` on in `locals`, each to the argument
    /// placed in its slot (evaluated in the caller's locals) or to its
    /// default (evaluated in `locals`); false where one has neither or a
    /// value is not known.
    fn bind_call_params(&self, params: &Vec<String>, defaults: &Vec<Option<HirExpr>>, ordered: &Vec<Option<usize>>,
        args: &Vec<HirCallArg>, idx: usize, depth: usize, caller_locals: &mut Vec<(String, ComptimeValue)>,
        locals: &mut Vec<(String, ComptimeValue)>) -> (r: bool)
        requires
            keys_unique(self.locals@),
        ensures
            ({
                let s = self.spec_eval_params(params@, defaults@, ordered@, args@, idx as int, depth as int,
                    locals_view(old(caller_locals)@), locals_view(old(locals)@));
                &&& r == s.0 is Some
                &&& r ==> locals_view(final(locals)@) == s.0->0
                &&& locals_view(final(caller_locals)@) == s.1
            }),
        decreases 70 - depth, 1int, params@.len() - idx,
    {
        if idx >= params.len() {
            return true;
        }
        let slot: Option<usize> = if idx < ordered.len() { ordered[idx] } else { None };
        match slot {
            Some(ai) => {
                if ai < args.len() {
                    let v = self.eval_next(&args[ai].value, depth, caller_locals);
                    match v {
                        None => false,
                        Some(x) => {
                            set_comptime_local(locals, params[idx].clone(), x);
                            self.bind_call_params(params, defaults, ordered, args, idx + 1, depth, caller_locals, locals)
                        },
                    }
                } else {
                    false
                }
            },
            None => {
                if idx < defaults.len() {
                    match &defaults[idx] {
                        Some(def) => {
                            let v = self.eval_next(def, depth, locals);
                            match v {
                                None => false,
                                Some(x) => {
                                    set_comptime_local(locals, params[idx].clone(), x);
                                    self.bind_call_params(params, defaults, ordered, args, idx + 1, depth, caller_locals, locals)
                                },
                            }
                        },
                        None => false,
                    }
                } else {
                    false
                }
            },
        }
    }

    /// A call of the function `name` evaluated at compile time from a caller
    /// with locals `caller_locals`: the function bound to a local of that
    /// name where there is one (which then sees the caller's locals), else
    /// the module's function; its body evaluated with each parameter bound
    /// to the argument placed in its slot, or to its default.
    #[verifier::rlimit(40)]
    pub fn try_eval_named_comptime_call(&self, name: &str, args: &Vec<HirCallArg>, depth: usize, caller_locals: &mut Vec<(String, ComptimeValue)>) -> (r: Option<ComptimeValue>)
        requires
            keys_unique(self.locals@),
        ensures
            opt_view(r) == self.spec_named_call(name@, args@, depth as int, locals_view(old(caller_locals)@)).0,
            locals_view(final(caller_locals)@) == self.spec_named_call(name@, args@, depth as int, locals_view(old(caller_locals)@)).1,
        decreases 70 - depth, 2int, 0int,
    {
        let key = chars_of(name);
        let mut resolved: String = string_from_str(name);
        let mut from_local = false;
        match local_get(caller_locals, &key) {
            Some(ComptimeValue::Function(f)) => {
                resolved = f.clone();
                from_local = true;
            },
            _ => {},
        }
        let mut found: Option<(&HirExpr, bool)> = None;
        if from_local {
            match find_name(&self.comptime_local_function_exprs, resolved.as_str()) {
                Some(i) => { found = Some((&self.comptime_local_function_exprs[i].1, true)); },
                None => match find_name(&self.function_exprs, resolved.as_str()) {
                    Some(i) => { found = Some((&self.function_exprs[i].1, false)); },
                    None => {},
                },
            }
        } else {
            match find_name(&self.function_exprs, resolved.as_str()) {
                Some(i) => { found = Some((&self.function_exprs[i].1, false)); },
                None => {},
            }
        }
        let (target, captures) = match found {
            None => { return None; },
            Some(p) => p,
        };
        match &target.kind {
            HirExprKind::Function { params, param_defaults, body, .. } => {
                if args.len() > params.len() {
                    return None;
                }
                let mut indexed: Vec<(Option<String>, usize)> = Vec::new();
                let mut k: usize = 0;
                while k < args.len()
                    invariant
                        k <= args@.len(),
                        indexed@.len() == k,
                        args_view(indexed@) =~= indexed_args(args@).take(k as int),
                    decreases args.len() - k,
                {
                    let nm: Option<String> = match &args[k].name {
                        Some(n) => Some(n.clone()),
                        None => None,
                    };
                    let ghost entry = (match args@[k as int].name {
                        Some(n) => Some(n@),
                        None => None::<Seq<char>>,
                    }, k);
                    assert(indexed_args(args@)[k as int] == entry);
                    let ghost nmv: Option<Seq<char>> = match &nm {
                        Some(x) => Some(x@),
                        None => None,
                    };
                    assert(nmv == entry.0);
                    indexed.push((nm, k));
                    assert(indexed@[k as int] == (nm, k));
                    assert(args_view(indexed@)[k as int] == (nmv, k));
                    k = k + 1;
                    assert(args_view(indexed@) =~= indexed_args(args@).take(k as int));
                }
                assert(indexed_args(args@).take(args@.len() as int) =~= indexed_args(args@));
                let ordered = self.order_named_call_items(params.as_slice(), indexed.as_slice());
                assert(ordered@ == place_args(views(params@), indexed_args(args@)).0);
                let mut locals: Vec<(String, ComptimeValue)> = if captures { clone_locals(caller_locals) } else { Vec::new() };
                assert(locals_view(locals@) == (if captures { locals_view(caller_locals@) } else { Seq::empty() }));
                if !self.bind_call_params(params, param_defaults, &ordered, args, 0, depth, caller_locals, &mut locals) {
                    return None;
                }
                self.eval_next(body, depth, &mut locals)
            },
            _ => {
                if args.len() != 0 {
                    return None;
                }
                let mut fresh: Vec<(String, ComptimeValue)> = Vec::new();
                assert(locals_view(fresh@) =~= Seq::<(Seq<char>, ComptimeValueView)>::empty());
                self.eval_next(target, depth, &mut fresh)
            },
        }
    }
}

fn cache_get(c: &Vec<(MirValueId, Option<ComptimeValue>)>, id: MirValueId) -> (r: Option<Option<ComptimeValue>>)
    ensures
        match cache_lookup(cache_view(c@), id) {
            None => r is None,
            Some(v) => r matches Some(x) && opt_view(x) == v,
        },
{
    let mut i: usize = 0;
    assert(cache_view(c@).skip(0) =~= cache_view(c@));
    while i < c.len()
        invariant
            i <= c@.len(),
            cache_lookup(cache_view(c@), id) == cache_lookup(cache_view(c@).skip(i as int), id),
        decreases c.len() - i,
    {
        assert(cache_view(c@).skip(i as int)[0] == cache_view(c@)[i as int]);
        assert(cache_view(c@).skip(i as int).drop_first() =~= cache_view(c@).skip(i + 1));
        if c[i].0 == id {
            let v = match &c[i].1 {
                Some(x) => Some(copy_value(x)),
                None => None,
            };
            return Some(v);
        }
        i = i + 1;
    }
    None
}

fn cache_put(c: &mut Vec<(MirValueId, Option<ComptimeValue>)>, id: MirValueId, v: Option<ComptimeValue>)
    ensures
        cache_view(final(c)@) == cache_set(cache_view(old(c)@), id, opt_view(v)),
{
    let ghost cv = cache_view(c@);
    let ghost vv = opt_view(v);
    let mut i: usize = 0;
    while i < c.len()
        invariant
            i <= c@.len(),
            c@ == old(c)@,
            cv == cache_view(old(c)@),
            vv == opt_view(v),
            forall|j: int| 0 <= j < i ==> (#[trigger] cv[j]).0 != id,
        decreases c.len() - i,
    {
        if c[i].0 == id {
            proof { lemma_cache_set_at(cv, id, vv, i as int); }
            let ghost before = c@;
            let entry = (id, v);
            assert(opt_view(entry.1) == vv);
            c.set(i, entry);
            assert(c@ == before.update(i as int, entry));
            assert(cache_view(c@)[i as int] == (id, vv));
            assert(cache_view(c@) =~= cv.update(i as int, (id, vv)));
            return;
        }
        i = i + 1;
    }
    proof { lemma_cache_set_none(cv, id, vv); }
    c.push((id, v));
    assert(cache_view(c@) =~= cv.push((id, vv)));
}

fn vis_contains(vs: &Vec<MirValueId>, id: MirValueId) -> (r: bool)
    ensures
        r == vs@.contains(id),
{
    let mut i: usize = 0;
    while i < vs.len()
        invariant
            i <= vs@.len(),
            forall|j: int| 0 <= j < i ==> vs@[j] != id,
        decreases vs.len() - i,
    {
        if vs[i] == id {
            assert(vs@[i as int] == id);
            return true;
        }
        i = i + 1;
    }
    false
}

fn vis_remove(vs: &mut Vec<MirValueId>, id: MirValueId)
    ensures
        final(vs)@ == without(old(vs)@, id),
{
    let mut out: Vec<MirValueId> = Vec::new();
    let mut i: usize = 0;
    assert(vs@.take(0) =~= Seq::<MirValueId>::empty());
    while i < vs.len()
        invariant
            i <= vs@.len(),
            vs@ == old(vs)@,
            out@ == without(vs@.take(i as int), id),
        decreases vs.len() - i,
    {
        assert(vs@.take(i + 1).drop_last() =~= vs@.take(i as int));
        assert(vs@.take(i + 1).last() == vs@[i as int]);
        if vs[i] != id {
            out.push(vs[i]);
        }
        i = i + 1;
    }
    assert(vs@.take(vs@.len() as int) =~= vs@);
    *vs = out;
}

impl FunctionLowerer {
    /// The compile-time value of MIR value `value_id`, read from the
    /// instruction that defines it, at nesting depth `depth`; `cache` holds
    /// the values worked out so far and `visiting` those being worked out.
    #[verifier::rlimit(40)]
    pub fn try_eval_comptime_value_id(&self, value_id: MirValueId, depth: usize,
        cache: &mut Vec<(MirValueId, Option<ComptimeValue>)>, visiting: &mut Vec<MirValueId>) -> (r: Option<ComptimeValue>)
        requires
            self.wf(),
        ensures
            opt_view(r) == self.spec_eval_value(value_id, depth as int, cache_view(old(cache)@), old(visiting)@).0,
            cache_view(final(cache)@) == self.spec_eval_value(value_id, depth as int, cache_view(old(cache)@), old(visiting)@).1,
            final(visiting)@ == self.spec_eval_value(value_id, depth as int, cache_view(old(cache)@), old(visiting)@).2,
        decreases 70 - depth,
    {
        if depth > 64 {
            return None;
        }
        match cache_get(cache, value_id) {
            Some(c) => { return c; },
            None => {},
        }
        if vis_contains(visiting, value_id) {
            return None;
        }
        visiting.push(value_id);
        let evaluated: Option<ComptimeValue> = match self.value_def(value_id) {
            Some(MirValue::Literal(lit)) => Some(ComptimeValue::Literal(FunctionLowerer::copy_literal(lit))),
            Some(MirValue::TypeLiteral(name)) => Some(ComptimeValue::Type(name.clone())),
            Some(MirValue::Ident(name)) => {
                let is_function = find_name(&self.function_return_types, name.as_str()).is_some()
                    || match find_name(&self.function_exprs, name.as_str()) {
                        Some(i) => matches!(self.function_exprs[i].1.kind, HirExprKind::Function { .. }),
                        None => false,
                    };
                if is_function {
                    Some(ComptimeValue::Function(name.clone()))
                } else {
                    None
                }
            },
            Some(MirValue::Unary { op, operand }) => {
                let o = self.try_eval_comptime_value_id(*operand, depth + 1, cache, visiting);
                match o {
                    None => { return None; },
                    Some(x) => eval_comptime_unary(*op, &x),
                }
            },
            Some(MirValue::Binary { op, left, right }) => {
                let a = self.try_eval_comptime_value_id(*left, depth + 1, cache, visiting);
                match a {
                    None => { return None; },
                    Some(x) => {
                        let b = self.try_eval_comptime_value_id(*right, depth + 1, cache, visiting);
                        match b {
                            None => { return None; },
                            Some(y) => eval_comptime_binary(*op, x, y),
                        }
                    },
                }
            },
            Some(MirValue::Assign { value, .. }) => self.try_eval_comptime_value_id(*value, depth + 1, cache, visiting),
            Some(MirValue::LocalSet { value, .. }) => self.try_eval_comptime_value_id(*value, depth + 1, cache, visiting),
            Some(MirValue::Cast { value, .. }) => self.try_eval_comptime_value_id(*value, depth + 1, cache, visiting),
            _ => None,
        };
        vis_remove(visiting, value_id);
        let stored: Option<ComptimeValue> = match &evaluated {
            Some(v) => Some(copy_value(v)),
            None => None,
        };
        cache_put(cache, value_id, stored);
        evaluated
    }
}

} // verus!
