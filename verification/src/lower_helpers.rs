//! String-level type helpers of MIR lowering: type-hint classification,
//! struct and enum type descriptors, layouts, and compile-time folding of
//! literal values.
//!
//! A struct type descriptor reads `struct{name:type,...}`. An enum type
//! descriptor reads `enum{Variant,Variant:payload,...}`, or `enum(uN){...}`
//! to give the tag width; without a width the tag has 32 bits.

use vstd::prelude::*;
use crate::hir::{HirExpr, HirExprKind, HirLiteral, HirLiteralView};
use crate::mir::MirValueType;
use crate::text::{
    chars_of, count_char, find_first_char, is_prefix, is_suffix, lemma_count_char_bound,
    lemma_count_char_step, lemma_find_char_some, lemma_trim_len, spec_find_char, spec_trim, starts_with_str,
    ends_with_str, subvec, trim, contains_seq, find_str, rfind_str, occurs_at, parse_unsigned,
    spec_parse_unsigned, eq_str, string_from_chars, trimmed_chars, chars_of_string, without_underscores,
    remove_underscores, spec_parse_i64, parse_i64, spec_int_text, i64_to_string, string_eq,
    spec_decimal, u64_to_string, string_eq_str, push_string, string_push, push_str,
};
use crate::ast::BinaryOp;

verus! {

/// A value known at compile time.
#[derive(Debug, Clone, PartialEq, Eq)]
pub enum ComptimeValue {
    Literal(HirLiteral),
    Type(String),
    Function(String),
}

/// The mathematical value of a compile-time value.
pub enum ComptimeValueView {
    Literal(HirLiteralView),
    Type(Seq<char>),
    Function(Seq<char>),
}

impl View for ComptimeValue {
    type V = ComptimeValueView;

    open spec fn view(&self) -> ComptimeValueView {
        match self {
            ComptimeValue::Literal(l) => ComptimeValueView::Literal(l@),
            ComptimeValue::Type(s) => ComptimeValueView::Type(s@),
            ComptimeValue::Function(s) => ComptimeValueView::Function(s@),
        }
    }
}

/// A bracket character: one of `()[]{}`.
pub open spec fn is_bracket(c: char) -> bool {
    c == '(' || c == ')' || c == '[' || c == ']' || c == '{' || c == '}'
}

/// Every bracket kind is balanced in `s[..p]`: as many openers as closers.
pub open spec fn balanced_before(s: Seq<char>, p: int) -> bool {
    &&& count_char(s.take(p), '(') == count_char(s.take(p), ')')
    &&& count_char(s.take(p), '[') == count_char(s.take(p), ']')
    &&& count_char(s.take(p), '{') == count_char(s.take(p), '}')
}

/// Position `p` holds `sep` outside any brackets.
pub open spec fn is_top_sep(s: Seq<char>, sep: char, p: int) -> bool {
    0 <= p < s.len() && s[p] == sep && balanced_before(s, p)
}

/// The top-level separator positions in `s[..n]`, ascending.
pub open spec fn top_seps_upto(s: Seq<char>, sep: char, n: int) -> Seq<int>
    decreases n,
{
    if n <= 0 {
        Seq::empty()
    } else if is_top_sep(s, sep, n - 1) {
        top_seps_upto(s, sep, n - 1).push(n - 1)
    } else {
        top_seps_upto(s, sep, n - 1)
    }
}

/// The top-level separator positions of `s`, ascending.
pub open spec fn top_seps(s: Seq<char>, sep: char) -> Seq<int> {
    top_seps_upto(s, sep, s.len() as int)
}

/// Where piece `k` of a split at `seps` starts.
pub open spec fn piece_start(seps: Seq<int>, k: int) -> int {
    if k == 0 { 0 } else { seps[k - 1] + 1 }
}

/// Where piece `k` of a split at `seps` ends.
pub open spec fn piece_end(s: Seq<char>, seps: Seq<int>, k: int) -> int {
    if k < seps.len() { seps[k] } else { s.len() as int }
}

/// `s` split at its top-level `sep` characters, each piece trimmed.
pub open spec fn spec_split_top_level(s: Seq<char>, sep: char) -> Seq<Seq<char>> {
    let seps = top_seps(s, sep);
    Seq::new(
        (seps.len() + 1) as nat,
        |k: int| spec_trim(s.subrange(piece_start(seps, k), piece_end(s, seps, k))),
    )
}

proof fn lemma_top_seps_props(s: Seq<char>, sep: char, n: int)
    requires
        0 <= n <= s.len(),
    ensures
        forall|k: int| 0 <= k < top_seps_upto(s, sep, n).len() ==> 0 <= #[trigger] top_seps_upto(s, sep, n)[k] < n,
        forall|j: int, k: int| 0 <= j < k < top_seps_upto(s, sep, n).len() ==> top_seps_upto(s, sep, n)[j]
            < top_seps_upto(s, sep, n)[k],
    decreases n,
{
    if n > 0 {
        lemma_top_seps_props(s, sep, n - 1);
        let prev = top_seps_upto(s, sep, n - 1);
        let cur = top_seps_upto(s, sep, n);
        if is_top_sep(s, sep, n - 1) {
            assert(cur == prev.push(n - 1));
            assert forall|k: int| 0 <= k < cur.len() implies 0 <= #[trigger] cur[k] < n by {
                if k < prev.len() {
                    assert(cur[k] == prev[k]);
                }
            }
            assert forall|j: int, k: int| 0 <= j < k < cur.len() implies cur[j] < cur[k] by {
                assert(cur[j] == prev[j]);
                if k < prev.len() {
                    assert(cur[k] == prev[k]);
                }
            }
        }
    }
}

/// The pieces of a top-level split, with their bounds, are within `s`.
pub proof fn lemma_split_piece_bounds(s: Seq<char>, sep: char, k: int)
    requires
        0 <= k <= top_seps(s, sep).len(),
    ensures
        0 <= piece_start(top_seps(s, sep), k) <= piece_end(s, top_seps(s, sep), k) <= s.len(),
        spec_split_top_level(s, sep)[k].len() <= s.len(),
{
    let seps = top_seps(s, sep);
    lemma_top_seps_props(s, sep, s.len() as int);
    if k > 0 && k < seps.len() {
        assert(seps[k - 1] < seps[k]);
    }
    lemma_trim_len(s.subrange(piece_start(seps, k), piece_end(s, seps, k)));
}

/// Splits `input` at its top-level `sep` characters and trims each piece.
fn split_top_level(input: &Vec<char>, sep: char) -> (r: Vec<Vec<char>>)
    requires
        !is_bracket(sep),
    ensures
        r@.len() == spec_split_top_level(input@, sep).len(),
        forall|k: int| 0 <= k < r@.len() ==> (#[trigger] r@[k])@ == spec_split_top_level(input@, sep)[k],
{
    let ghost s = input@;
    let mut out: Vec<Vec<char>> = Vec::new();
    let mut po: usize = 0;
    let mut pc: usize = 0;
    let mut bo: usize = 0;
    let mut bc: usize = 0;
    let mut co: usize = 0;
    let mut cc: usize = 0;
    let mut start: usize = 0;
    let mut idx: usize = 0;
    while idx < input.len()
        invariant
            s == input@,
            !is_bracket(sep),
            idx <= s.len(),
            po == count_char(s.take(idx as int), '('),
            pc == count_char(s.take(idx as int), ')'),
            bo == count_char(s.take(idx as int), '['),
            bc == count_char(s.take(idx as int), ']'),
            co == count_char(s.take(idx as int), '{'),
            cc == count_char(s.take(idx as int), '}'),
            out@.len() == top_seps_upto(s, sep, idx as int).len(),
            start as int == piece_start(top_seps_upto(s, sep, idx as int), out@.len() as int),
            start <= idx,
            forall|k: int| 0 <= k < out@.len() ==> (#[trigger] out@[k])@ == spec_trim(
                s.subrange(piece_start(top_seps_upto(s, sep, idx as int), k), top_seps_upto(s, sep, idx as int)[k]),
            ),
        decreases input.len() - idx,
    {
        let ch = input[idx];
        let ghost prev_seps = top_seps_upto(s, sep, idx as int);
        proof {
            lemma_count_char_step(s, idx as int, '(');
            lemma_count_char_step(s, idx as int, ')');
            lemma_count_char_step(s, idx as int, '[');
            lemma_count_char_step(s, idx as int, ']');
            lemma_count_char_step(s, idx as int, '{');
            lemma_count_char_step(s, idx as int, '}');
            lemma_count_char_bound(s.take(idx as int), '(');
            lemma_count_char_bound(s.take(idx as int), '[');
            lemma_count_char_bound(s.take(idx as int), '{');
            lemma_count_char_bound(s.take(idx as int), ')');
            lemma_count_char_bound(s.take(idx as int), ']');
            lemma_count_char_bound(s.take(idx as int), '}');
        }
        let top = ch == sep && po == pc && bo == bc && co == cc;
        if ch == '(' {
            po = po + 1;
        } else if ch == ')' {
            pc = pc + 1;
        } else if ch == '[' {
            bo = bo + 1;
        } else if ch == ']' {
            bc = bc + 1;
        } else if ch == '{' {
            co = co + 1;
        } else if ch == '}' {
            cc = cc + 1;
        }
        assert(top == is_top_sep(s, sep, idx as int));
        if top {
            let piece = subvec(input, start, idx);
            let t = trim(&piece);
            out.push(t);
            start = idx + 1;
            proof {
                let ns = top_seps_upto(s, sep, idx + 1);
                assert(ns == prev_seps.push(idx as int));
                assert forall|k: int| 0 <= k < out@.len() implies (#[trigger] out@[k])@ == spec_trim(
                    s.subrange(piece_start(ns, k), ns[k]),
                ) by {
                    if k < out@.len() - 1 {
                        assert(piece_start(ns, k) == piece_start(prev_seps, k));
                        assert(ns[k] == prev_seps[k]);
                    }
                }
            }
        } else {
            proof {
                assert(top_seps_upto(s, sep, idx + 1) == prev_seps);
            }
        }
        idx = idx + 1;
    }
    let last = subvec(input, start, input.len());
    let t = trim(&last);
    out.push(t);
    proof {
        let seps = top_seps(s, sep);
        assert(seps == top_seps_upto(s, sep, s.len() as int));
        let spec = spec_split_top_level(s, sep);
        assert forall|k: int| 0 <= k < out@.len() implies (#[trigger] out@[k])@ == spec[k] by {
            if k < seps.len() {
                assert(piece_end(s, seps, k) == seps[k]);
            }
        }
    }
    out
}

/// The field `name:type` of a struct descriptor piece: the text before the
/// first `:` and the text after it, both trimmed and both non-empty.
pub open spec fn spec_field_of(part: Seq<char>) -> Option<(Seq<char>, Seq<char>)> {
    match spec_find_char(part, ':') {
        None => None,
        Some(i) => {
            let name = spec_trim(part.take(i));
            let ty = spec_trim(part.skip(i + 1));
            if name.len() == 0 || ty.len() == 0 {
                None
            } else {
                Some((name, ty))
            }
        },
    }
}

/// The text between `struct{` and the final `}`, if `s` has that shape.
pub open spec fn struct_inner(s: Seq<char>) -> Option<Seq<char>> {
    if is_prefix("struct{"@, s) && is_suffix("}"@, s) && s.len() >= 8 {
        Some(s.subrange(7, s.len() - 1))
    } else {
        None
    }
}

/// The fields `(name, type)` of a struct type descriptor `struct{name:type,...}`.
pub open spec fn spec_parse_struct_fields(s: Seq<char>) -> Option<Seq<(Seq<char>, Seq<char>)>> {
    match struct_inner(s) {
        None => None,
        Some(inner) => if spec_trim(inner).len() == 0 {
            Some(Seq::empty())
        } else {
            let parts = spec_split_top_level(inner, ',');
            if forall|k: int| 0 <= k < parts.len() ==> (#[trigger] spec_field_of(parts[k])) is Some {
                Some(parts.map_values(|p: Seq<char>| spec_field_of(p).unwrap()))
            } else {
                None
            }
        },
    }
}

/// The field names and types of a struct descriptor are shorter than the descriptor.
pub proof fn lemma_struct_fields_shorter(s: Seq<char>)
    ensures
        spec_parse_struct_fields(s) matches Some(fields) ==> forall|k: int|
            0 <= k < fields.len() ==> (#[trigger] fields[k]).1.len() < s.len() && fields[k].0.len() < s.len(),
{
    if let Some(fields) = spec_parse_struct_fields(s) {
        let inner = struct_inner(s).unwrap();
        if spec_trim(inner).len() != 0 {
            let parts = spec_split_top_level(inner, ',');
            assert forall|k: int| 0 <= k < fields.len() implies (#[trigger] fields[k]).1.len() < s.len()
                && fields[k].0.len() < s.len() by {
                lemma_split_piece_bounds(inner, ',', k);
                let part = parts[k];
                assert(spec_field_of(part) is Some);
                let i = spec_find_char(part, ':').unwrap();
                lemma_find_char_some(part, ':');
                lemma_trim_len(part.take(i));
                lemma_trim_len(part.skip(i + 1));
            }
        }
    }
}

/// Splits a descriptor piece into its field name and type.
fn field_of(part: &Vec<char>) -> (r: Option<(Vec<char>, Vec<char>)>)
    ensures
        match spec_field_of(part@) {
            None => r is None,
            Some((n, t)) => r matches Some(f) && f.0@ == n && f.1@ == t,
        },
{
    let i = match find_first_char(part, ':') {
        None => return None,
        Some(i) => i,
    };
    proof { lemma_find_char_some(part@, ':'); }
    let n = part.len();
    let head = subvec(part, 0, i);
    let tail = subvec(part, i + 1, part.len());
    let name = trim(&head);
    let ty = trim(&tail);
    assert(head@ == part@.take(i as int));
    assert(tail@ == part@.skip(i + 1));
    if name.len() == 0 || ty.len() == 0 {
        return None;
    }
    Some((name, ty))
}

/// The fields of a struct type descriptor, if `s` is one.
fn parse_struct_fields(s: &Vec<char>) -> (r: Option<Vec<(Vec<char>, Vec<char>)>>)
    ensures
        match spec_parse_struct_fields(s@) {
            None => r is None,
            Some(fs) => r matches Some(v) && v@.len() == fs.len() && forall|k: int|
                0 <= k < fs.len() ==> (#[trigger] v@[k]).0@ == fs[k].0 && v@[k].1@ == fs[k].1,
        },
{
    if !(starts_with_str(s, "struct{") && ends_with_str(s, "}")) {
        return None;
    }
    if s.len() < 8 {
        proof {
            reveal_strlit("struct{");
            reveal_strlit("}");
            if s@.len() == 7 {
                assert(s@.subrange(0, 7)[6] == '{');
                assert(s@.subrange(6, 7)[0] == '}');
            }
        }
        return None;
    }
    let inner = subvec(s, 7, s.len() - 1);
    assert(struct_inner(s@) == Some(inner@));
    let trimmed = trim(&inner);
    if trimmed.len() == 0 {
        return Some(Vec::new());
    }
    let parts = split_top_level(&inner, ',');
    let ghost sparts = spec_split_top_level(inner@, ',');
    let mut fields: Vec<(Vec<char>, Vec<char>)> = Vec::new();
    let mut k: usize = 0;
    while k < parts.len()
        invariant
            struct_inner(s@) == Some(inner@),
            spec_trim(inner@).len() != 0,
            sparts == spec_split_top_level(inner@, ','),
            parts@.len() == sparts.len(),
            forall|j: int| 0 <= j < parts@.len() ==> (#[trigger] parts@[j])@ == sparts[j],
            k <= parts@.len(),
            fields@.len() == k,
            forall|j: int| 0 <= j < k ==> (#[trigger] spec_field_of(sparts[j])) is Some,
            forall|j: int| 0 <= j < k ==> (#[trigger] fields@[j]).0@ == spec_field_of(sparts[j]).unwrap().0
                && fields@[j].1@ == spec_field_of(sparts[j]).unwrap().1,
        decreases parts.len() - k,
    {
        match field_of(&parts[k]) {
            None => {
                assert(spec_field_of(sparts[k as int]) is None);
                assert(!(forall|j: int| 0 <= j < sparts.len() ==> (#[trigger] spec_field_of(sparts[j])) is Some));
                return None;
            },
            Some(f) => {
                fields.push(f);
            },
        }
        k = k + 1;
    }
    Some(fields)
}

/// Whether `field` names a field of the struct descriptor.
pub open spec fn spec_has_struct_field(descriptor: Seq<char>, field: Seq<char>) -> bool {
    match spec_parse_struct_fields(descriptor) {
        Some(fields) => fields_have_name(fields, field),
        None => false,
    }
}

/// Some field in `fields` is named `name`.
pub open spec fn fields_have_name(fields: Seq<(Seq<char>, Seq<char>)>, name: Seq<char>) -> bool {
    exists|k: int| 0 <= k < fields.len() && (#[trigger] fields[k]).0 == name
}

/// Whether the struct type descriptor has a field named `field`.
pub fn has_struct_field(type_descriptor: &str, field: &str) -> (r: bool)
    ensures
        r == spec_has_struct_field(type_descriptor@, field@),
{
    let d = chars_of(type_descriptor);
    let f = chars_of(field);
    match parse_struct_fields(&d) {
        None => false,
        Some(fields) => {
            let ghost fs = spec_parse_struct_fields(d@).unwrap();
            let mut k: usize = 0;
            while k < fields.len()
                invariant
                    d@ == type_descriptor@,
                    f@ == field@,
                    spec_parse_struct_fields(d@) == Some(fs),
                    fields@.len() == fs.len(),
                    forall|j: int| 0 <= j < fs.len() ==> (#[trigger] fields@[j]).0@ == fs[j].0 && fields@[j].1@ == fs[j].1,
                    k <= fs.len(),
                    forall|j: int| 0 <= j < k ==> (#[trigger] fs[j]).0 != f@,
                decreases fields.len() - k,
            {
                if crate::text::eq_chars(&fields[k].0, &f) {
                    assert(fs[k as int].0 == f@);
                    assert(fields_have_name(fs, field@));
                    assert(spec_has_struct_field(type_descriptor@, field@));
                    return true;
                }
                k = k + 1;
            }
            false
        },
    }
}

/// The `(name, type)` pairs of a struct descriptor; none when it is not one.
pub fn struct_field_names_with_types(type_descriptor: &str) -> (r: Vec<(String, String)>)
    ensures
        match spec_parse_struct_fields(type_descriptor@) {
            None => r@.len() == 0,
            Some(fs) => r@.len() == fs.len() && forall|k: int|
                0 <= k < fs.len() ==> (#[trigger] r@[k]).0@ == fs[k].0 && r@[k].1@ == fs[k].1,
        },
{
    let d = chars_of(type_descriptor);
    let mut out: Vec<(String, String)> = Vec::new();
    match parse_struct_fields(&d) {
        None => {},
        Some(fields) => {
            let ghost fs = spec_parse_struct_fields(d@).unwrap();
            let mut k: usize = 0;
            while k < fields.len()
                invariant
                    d@ == type_descriptor@,
                    spec_parse_struct_fields(d@) == Some(fs),
                    fields@.len() == fs.len(),
                    forall|j: int| 0 <= j < fs.len() ==> (#[trigger] fields@[j]).0@ == fs[j].0 && fields@[j].1@ == fs[j].1,
                    k <= fs.len(),
                    out@.len() == k,
                    forall|j: int| 0 <= j < k ==> (#[trigger] out@[j]).0@ == fs[j].0 && out@[j].1@ == fs[j].1,
                decreases fields.len() - k,
            {
                let name = crate::text::string_from_chars(&fields[k].0);
                let ty = crate::text::string_from_chars(&fields[k].1);
                out.push((name, ty));
                k = k + 1;
            }
        },
    }
    out
}

/// `value` rounded up to a multiple of `align`; `u64::MAX` when that does not fit.
pub open spec fn spec_align_up(value: nat, align: nat) -> nat {
    if align <= 1 || value % align == 0 {
        value
    } else if value + (align - value % align) > u64::MAX {
        u64::MAX as nat
    } else {
        (value + (align - value % align)) as nat
    }
}

/// `a + b`, or `u64::MAX` when that does not fit.
pub open spec fn sat_add(a: nat, b: nat) -> nat {
    if a + b > u64::MAX { u64::MAX as nat } else { a + b }
}

/// One of the alignments that layouts use.
pub open spec fn valid_align(a: nat) -> bool {
    a == 1 || a == 2 || a == 4 || a == 8
}

/// Rounds `value` up to a multiple of the power of two `align`.
fn align_to_u64(value: u64, align: u64) -> (r: u64)
    requires
        valid_align(align as nat),
    ensures
        r == spec_align_up(value as nat, align as nat),
{
    if align <= 1 {
        return value;
    }
    let mask = align - 1;
    if value & mask == 0 {
        proof {
            if align == 2 {
                assert(value & 1 == 0 ==> value % 2 == 0) by (bit_vector);
            } else if align == 4 {
                assert(value & 3 == 0 ==> value % 4 == 0) by (bit_vector);
            } else {
                assert(value & 7 == 0 ==> value % 8 == 0) by (bit_vector);
            }
        }
        value
    } else {
        proof {
            if align == 2 {
                assert(value & 1 != 0 ==> value % 2 != 0) by (bit_vector);
            } else if align == 4 {
                assert(value & 3 != 0 ==> value % 4 != 0) by (bit_vector);
            } else {
                assert(value & 7 != 0 ==> value % 8 != 0) by (bit_vector);
            }
        }
        if value > u64::MAX - mask {
            return u64::MAX;
        }
        let r = (value + mask) & !mask;
        proof {
            if align == 2 {
                assert(value <= 0xffff_ffff_ffff_fffe && value % 2 != 0 ==> ((value + 1) as u64) & !1u64 == value + (2 - value % 2)) by (bit_vector);
            } else if align == 4 {
                assert(value <= 0xffff_ffff_ffff_fffc && value % 4 != 0 ==> ((value + 3) as u64) & !3u64 == value + (4 - value % 4)) by (bit_vector);
            } else {
                assert(value <= 0xffff_ffff_ffff_fff8 && value % 8 != 0 ==> ((value + 7) as u64) & !7u64 == value + (8 - value % 8)) by (bit_vector);
            }
        }
        r
    }
}

/// Size and alignment of a type that is not a struct descriptor.
pub open spec fn prim_layout(n: Seq<char>) -> (nat, nat) {
    if n == "u1"@ || n == "i8"@ || n == "u8"@ {
        (1, 1)
    } else if n == "i16"@ || n == "u16"@ {
        (2, 2)
    } else if n == "i32"@ || n == "u32"@ || n == "f32"@ {
        (4, 4)
    } else if n == "i64"@ || n == "u64"@ || n == "isize"@ || n == "usize"@ || n == "f64"@ || n
        == "type"@ || n == "opaque"@ || n == "any"@ {
        (8, 8)
    } else if is_prefix("*"@, n) {
        (8, 8)
    } else if is_prefix("[]"@, n) {
        (16, 8)
    } else {
        (8, 8)
    }
}

/// Size and alignment of the named type: a struct descriptor is laid out
/// field by field, each at the next multiple of its alignment, and padded to
/// a multiple of its largest field alignment.
pub open spec fn spec_layout(name: Seq<char>) -> (nat, nat)
    decreases name.len(), 1nat, 0nat,
{
    let t = spec_trim(name);
    match spec_parse_struct_fields(t) {
        Some(fields) => if t.len() <= name.len() {
            let acc = spec_fields_layout(fields, fields.len() as int, t.len());
            (spec_align_up(acc.0, acc.1), acc.1)
        } else {
            (0, 1)
        },
        None => prim_layout(t),
    }
}

/// The running `(size, largest alignment)` after the first `k` fields.
pub open spec fn spec_fields_layout(fields: Seq<(Seq<char>, Seq<char>)>, k: int, bound: nat) -> (nat, nat)
    decreases bound, 0nat, k,
{
    if k <= 0 {
        (0, 1)
    } else {
        let acc = spec_fields_layout(fields, k - 1, bound);
        let f = if fields[k - 1].1.len() < bound { spec_layout(fields[k - 1].1) } else { (0nat, 1nat) };
        (sat_add(spec_align_up(acc.0, f.1), f.0), if acc.1 >= f.1 { acc.1 } else { f.1 })
    }
}

/// An alignment that layouts use.
pub open spec fn is_layout_align(a: nat) -> bool {
    a == 1 || a == 2 || a == 4 || a == 8
}

proof fn lemma_align_up_multiple(v: nat, a: nat)
    requires
        is_layout_align(a),
        spec_align_up(v, a) < u64::MAX,
    ensures
        spec_align_up(v, a) % a == 0,
{
    if a > 1 && v % a != 0 {
        let vi = v as int;
        let ai = a as int;
        assert((vi + (ai - vi % ai)) % ai == 0) by (nonlinear_arith)
            requires
                ai > 0,
        ;
    }
}

proof fn lemma_fields_layout_align(fields: Seq<(Seq<char>, Seq<char>)>, k: int, bound: nat)
    ensures
        is_layout_align(spec_fields_layout(fields, k, bound).1),
    decreases bound, 0nat, k,
{
    if k > 0 {
        lemma_fields_layout_align(fields, k - 1, bound);
        if fields[k - 1].1.len() < bound {
            lemma_layout_align(fields[k - 1].1);
        }
    }
}

proof fn lemma_layout_align(name: Seq<char>)
    ensures
        is_layout_align(spec_layout(name).1),
        spec_layout(name).0 < u64::MAX ==> spec_layout(name).0 % spec_layout(name).1 == 0,
    decreases name.len(), 1nat, 0nat,
{
    let t = spec_trim(name);
    match spec_parse_struct_fields(t) {
        Some(fields) => {
            if t.len() <= name.len() {
                lemma_fields_layout_align(fields, fields.len() as int, t.len());
                let acc = spec_fields_layout(fields, fields.len() as int, t.len());
                if spec_align_up(acc.0, acc.1) < u64::MAX {
                    lemma_align_up_multiple(acc.0, acc.1);
                }
            }
        },
        None => {},
    }
}

/// Every layout has an alignment of 1, 2, 4 or 8 bytes, and its size is a
/// multiple of the alignment unless the size saturated at `u64::MAX`. A
/// name that is not a struct descriptor has its primitive layout: `[]T` is
/// (16, 8), `*T` and any unrecognised name (8, 8); `struct{}` is (0, 1).
pub proof fn lemma_layout_size_is_aligned(name: Seq<char>)
    ensures
        is_layout_align(spec_layout(name).1),
        spec_layout(name).0 < u64::MAX ==> spec_layout(name).0 % spec_layout(name).1 == 0,
        spec_parse_struct_fields(spec_trim(name)) is None ==> spec_layout(name) == prim_layout(spec_trim(name)),
        spec_trim(name) == "struct{}"@ ==> spec_layout(name) == (0nat, 1nat),
{
    lemma_layout_align(name);
    reveal_strlit("struct{}");
    reveal_strlit("struct{");
    reveal_strlit("}");
    if spec_trim(name) == "struct{}"@ {
        let t = spec_trim(name);
        assert(t.subrange(0, 7) =~= "struct{"@);
        assert(t.subrange(7, 8) =~= "}"@);
        assert(struct_inner(t) == Some(t.subrange(7, 7)));
        assert(t.subrange(7, 7) =~= Seq::<char>::empty());
        crate::text::lemma_trim_unpadded(Seq::<char>::empty());
        crate::text::lemma_trim_len(Seq::<char>::empty());
        assert(spec_parse_struct_fields(t) == Some(Seq::<(Seq<char>, Seq<char>)>::empty()));
    }
}

/// The layout that field `i` of a struct descriptor of length `bound` is
/// given: that of its type.
pub open spec fn field_layout(fields: Seq<(Seq<char>, Seq<char>)>, i: int, bound: nat) -> (nat, nat) {
    if fields[i].1.len() < bound { spec_layout(fields[i].1) } else { (0nat, 1nat) }
}

/// The largest alignment among the first `k` fields, and at least 1.
pub open spec fn fields_max_align(fields: Seq<(Seq<char>, Seq<char>)>, k: int, bound: nat) -> nat
    decreases k,
{
    if k <= 0 {
        1
    } else {
        let m = fields_max_align(fields, k - 1, bound);
        let a = field_layout(fields, k - 1, bound).1;
        if m >= a { m } else { a }
    }
}

/// The sum of the sizes of the first `k` fields.
pub open spec fn fields_size_sum(fields: Seq<(Seq<char>, Seq<char>)>, k: int, bound: nat) -> nat
    decreases k,
{
    if k <= 0 {
        0
    } else {
        fields_size_sum(fields, k - 1, bound) + field_layout(fields, k - 1, bound).0
    }
}

proof fn lemma_fields_layout_bounds(fields: Seq<(Seq<char>, Seq<char>)>, k: int, bound: nat)
    ensures
        spec_fields_layout(fields, k, bound).0 <= u64::MAX,
        spec_fields_layout(fields, k, bound).1 == fields_max_align(fields, k, bound),
        fields_size_sum(fields, k, bound) <= u64::MAX ==> spec_fields_layout(fields, k, bound).0 >= fields_size_sum(fields, k, bound),
    decreases k,
{
    if k > 0 {
        lemma_fields_layout_bounds(fields, k - 1, bound);
        let acc = spec_fields_layout(fields, k - 1, bound);
        let f = field_layout(fields, k - 1, bound);
        assert(spec_align_up(acc.0, f.1) >= acc.0);
        assert(spec_align_up(acc.0, f.1) <= u64::MAX);
    }
}

/// A struct descriptor is aligned to the largest alignment of its fields
/// (and at least 1), and, while the sum of its field sizes fits in 64 bits,
/// is at least that large.
pub proof fn lemma_struct_layout_from_fields(name: Seq<char>)
    requires
        spec_parse_struct_fields(spec_trim(name)) is Some,
    ensures
        ({
            let t = spec_trim(name);
            let fields = spec_parse_struct_fields(t)->0;
            &&& spec_layout(name).1 == fields_max_align(fields, fields.len() as int, t.len())
            &&& fields_size_sum(fields, fields.len() as int, t.len()) <= u64::MAX ==> spec_layout(name).0
                >= fields_size_sum(fields, fields.len() as int, t.len())
        }),
{
    let t = spec_trim(name);
    let fields = spec_parse_struct_fields(t)->0;
    crate::text::lemma_trim_len(name);
    lemma_fields_layout_bounds(fields, fields.len() as int, t.len());
    let acc = spec_fields_layout(fields, fields.len() as int, t.len());
    assert(spec_align_up(acc.0, acc.1) >= acc.0);
}

fn prim_layout_exec(n: &Vec<char>) -> (r: (u64, u64))
    ensures
        r.0 as nat == prim_layout(n@).0,
        r.1 as nat == prim_layout(n@).1,
        valid_align(r.1 as nat),
{
    if crate::text::eq_str(n, "u1") || crate::text::eq_str(n, "i8") || crate::text::eq_str(n, "u8") {
        (1, 1)
    } else if crate::text::eq_str(n, "i16") || crate::text::eq_str(n, "u16") {
        (2, 2)
    } else if crate::text::eq_str(n, "i32") || crate::text::eq_str(n, "u32") || crate::text::eq_str(n, "f32") {
        (4, 4)
    } else if crate::text::eq_str(n, "i64") || crate::text::eq_str(n, "u64") || crate::text::eq_str(n, "isize")
        || crate::text::eq_str(n, "usize") || crate::text::eq_str(n, "f64") || crate::text::eq_str(n, "type")
        || crate::text::eq_str(n, "opaque") || crate::text::eq_str(n, "any") {
        (8, 8)
    } else if starts_with_str(n, "*") {
        (8, 8)
    } else if starts_with_str(n, "[]") {
        (16, 8)
    } else {
        (8, 8)
    }
}

/// Size and alignment of the named type, over its characters.
fn layout_of(name: &Vec<char>) -> (r: (u64, u64))
    ensures
        r.0 as nat == spec_layout(name@).0,
        r.1 as nat == spec_layout(name@).1,
        valid_align(r.1 as nat),
    decreases name@.len(), 1nat,
{
    let t = trim(name);
    proof {
        lemma_trim_len(name@);
        lemma_struct_fields_shorter(t@);
    }
    match parse_struct_fields(&t) {
        Some(fields) => {
            proof {
                let fs = spec_parse_struct_fields(t@).unwrap();
                assert(fs =~= fields@.map_values(|f: (Vec<char>, Vec<char>)| (f.0@, f.1@)));
            }
            let acc = fields_layout(&fields, Ghost(t@.len()));
            let size = align_to_u64(acc.0, acc.1);
            (size, acc.1)
        },
        None => prim_layout_exec(&t),
    }
}

/// The running `(size, largest alignment)` over all `fields`.
fn fields_layout(fields: &Vec<(Vec<char>, Vec<char>)>, Ghost(bound): Ghost<nat>) -> (r: (u64, u64))
    requires
        forall|k: int| 0 <= k < fields@.len() ==> (#[trigger] fields@[k]).1@.len() < bound,
    ensures
        ({
            let spec_fields = fields@.map_values(|f: (Vec<char>, Vec<char>)| (f.0@, f.1@));
            let acc = spec_fields_layout(spec_fields, fields@.len() as int, bound);
            r.0 as nat == acc.0 && r.1 as nat == acc.1
        }),
        valid_align(r.1 as nat),
    decreases bound, 0nat,
{
    let ghost spec_fields = fields@.map_values(|f: (Vec<char>, Vec<char>)| (f.0@, f.1@));
    let mut size: u64 = 0;
    let mut max_align: u64 = 1;
    let mut k: usize = 0;
    while k < fields.len()
        invariant
            spec_fields == fields@.map_values(|f: (Vec<char>, Vec<char>)| (f.0@, f.1@)),
            forall|j: int| 0 <= j < fields@.len() ==> (#[trigger] fields@[j]).1@.len() < bound,
            k <= fields@.len(),
            size as nat == spec_fields_layout(spec_fields, k as int, bound).0,
            max_align as nat == spec_fields_layout(spec_fields, k as int, bound).1,
            valid_align(max_align as nat),
        decreases fields.len() - k,
    {
        let (field_size, field_align) = layout_of(&fields[k].1);
        assert(spec_fields[k as int].1 == fields@[k as int].1@);
        if field_align > max_align {
            max_align = field_align;
        }
        size = align_to_u64(size, field_align);
        size = size.saturating_add(field_size);
        k = k + 1;
    }
    (size, max_align)
}

/// Size and alignment in bytes of a type by name: a builtin scalar, a
/// pointer, a slice, or a struct descriptor.
pub fn layout_for_builtin_type_name(name: &str) -> (r: (u64, u64))
    ensures
        r.0 as nat == spec_layout(name@).0,
        r.1 as nat == spec_layout(name@).1,
{
    let v = chars_of(name);
    layout_of(&v)
}

/// The tag width that an enum representation type names.
pub open spec fn enum_repr_bits_of(r: Seq<char>) -> Option<u16> {
    if r == "u8"@ {
        Some(8u16)
    } else if r == "u16"@ {
        Some(16u16)
    } else if r == "u32"@ {
        Some(32u16)
    } else if r == "u64"@ || r == "usize"@ {
        Some(64u16)
    } else {
        None
    }
}

/// The tag width and the variant list of an enum type descriptor
/// `enum{...}` (32-bit tag) or `enum(uN){...}`.
pub open spec fn spec_parse_enum_descriptor(s: Seq<char>) -> Option<(u16, Seq<char>)> {
    if is_prefix("enum{"@, s) && is_suffix("}"@, s) && s.len() >= 6 {
        Some((32u16, s.subrange(5, s.len() - 1)))
    } else if is_prefix("enum("@, s) {
        match spec_find_char(s, ')') {
            Some(i) => {
                let rest = s.skip(i + 1);
                if i >= 5 && enum_repr_bits_of(s.subrange(5, i)) is Some && is_prefix("{"@, rest)
                    && is_suffix("}"@, rest) && rest.len() >= 2 {
                    Some((enum_repr_bits_of(s.subrange(5, i)).unwrap(), rest.subrange(1, rest.len() - 1)))
                } else {
                    None
                }
            },
            None => None,
        }
    } else {
        None
    }
}

fn enum_repr_bits_exec(r: &Vec<char>) -> (b: Option<u16>)
    ensures
        b == enum_repr_bits_of(r@),
{
    if crate::text::eq_str(r, "u8") {
        Some(8)
    } else if crate::text::eq_str(r, "u16") {
        Some(16)
    } else if crate::text::eq_str(r, "u32") {
        Some(32)
    } else if crate::text::eq_str(r, "u64") || crate::text::eq_str(r, "usize") {
        Some(64)
    } else {
        None
    }
}

/// Reads an enum type descriptor into its tag width and variant list.
fn parse_enum_type_descriptor(s: &Vec<char>) -> (r: Option<(u16, Vec<char>)>)
    ensures
        match spec_parse_enum_descriptor(s@) {
            None => r is None,
            Some((bits, inner)) => r matches Some(x) && x.0 == bits && x.1@ == inner,
        },
{
    if starts_with_str(s, "enum{") && ends_with_str(s, "}") && s.len() >= 6 {
        let inner = subvec(s, 5, s.len() - 1);
        return Some((32, inner));
    }
    if !starts_with_str(s, "enum(") {
        return None;
    }
    let i = match find_first_char(s, ')') {
        None => return None,
        Some(i) => i,
    };
    proof { lemma_find_char_some(s@, ')'); }
    let n = s.len();
    let rest = subvec(s, i + 1, n);
    assert(rest@ == s@.skip(i + 1));
    if i < 5 {
        return None;
    }
    let repr = subvec(s, 5, i);
    let bits = match enum_repr_bits_exec(&repr) {
        None => return None,
        Some(b) => b,
    };
    if starts_with_str(&rest, "{") && ends_with_str(&rest, "}") && rest.len() >= 2 {
        let inner = subvec(&rest, 1, rest.len() - 1);
        Some((bits, inner))
    } else {
        None
    }
}

/// The tag width of an enum type descriptor.
pub fn enum_type_repr_bits(descriptor: &str) -> (r: Option<u16>)
    ensures
        r == (match spec_parse_enum_descriptor(descriptor@) {
            Some((bits, _)) => Some(bits),
            None => None,
        }),
{
    let v = chars_of(descriptor);
    match parse_enum_type_descriptor(&v) {
        Some((bits, _)) => Some(bits),
        None => None,
    }
}

/// The name of an enum variant piece: its text before any `:`, trimmed.
pub open spec fn variant_name_of(part: Seq<char>) -> Seq<char> {
    match spec_find_char(part, ':') {
        Some(i) => spec_trim(part.take(i)),
        None => spec_trim(part),
    }
}

/// The variant names of the pieces, skipping empty pieces; `None` when a
/// non-empty piece has an empty name.
pub open spec fn spec_variant_names(parts: Seq<Seq<char>>) -> Option<Seq<Seq<char>>>
    decreases parts.len(),
{
    if parts.len() == 0 {
        Some(Seq::empty())
    } else {
        match spec_variant_names(parts.drop_last()) {
            None => None,
            Some(names) => if spec_trim(parts.last()).len() == 0 {
                Some(names)
            } else if variant_name_of(parts.last()).len() == 0 {
                None
            } else {
                Some(names.push(variant_name_of(parts.last())))
            },
        }
    }
}

/// The variant names of an enum type descriptor, in order.
pub open spec fn spec_enum_type_variants(s: Seq<char>) -> Option<Seq<Seq<char>>> {
    match spec_parse_enum_descriptor(s) {
        None => None,
        Some((_, inner)) => if spec_trim(inner).len() == 0 {
            Some(Seq::empty())
        } else {
            spec_variant_names(spec_split_top_level(inner, ','))
        },
    }
}

/// The variant names of an enum type descriptor, in order.
pub fn enum_type_variants(descriptor: &str) -> (r: Option<Vec<String>>)
    ensures
        match spec_enum_type_variants(descriptor@) {
            None => r is None,
            Some(names) => r matches Some(v) && v@.len() == names.len() && forall|k: int|
                0 <= k < names.len() ==> (#[trigger] v@[k])@ == names[k],
        },
{
    let v = chars_of(descriptor);
    let (_, inner) = match parse_enum_type_descriptor(&v) {
        None => return None,
        Some(x) => x,
    };
    let t = trim(&inner);
    if t.len() == 0 {
        return Some(Vec::new());
    }
    let parts = split_top_level(&inner, ',');
    let ghost sparts = spec_split_top_level(inner@, ',');
    let mut names: Vec<String> = Vec::new();
    let mut k: usize = 0;
    assert(sparts.take(0) =~= Seq::<Seq<char>>::empty());
    while k < parts.len()
        invariant
            v@ == descriptor@,
            spec_parse_enum_descriptor(v@) matches Some(x) && x.1 == inner@,
            spec_trim(inner@).len() != 0,
            sparts == spec_split_top_level(inner@, ','),
            parts@.len() == sparts.len(),
            forall|j: int| 0 <= j < parts@.len() ==> (#[trigger] parts@[j])@ == sparts[j],
            k <= parts@.len(),
            spec_variant_names(sparts.take(k as int)) matches Some(ns) && names@.len() == ns.len() && forall|j: int|
                0 <= j < ns.len() ==> (#[trigger] names@[j])@ == ns[j],
        decreases parts.len() - k,
    {
        let ghost prev = spec_variant_names(sparts.take(k as int)).unwrap();
        assert(sparts.take(k + 1).drop_last() =~= sparts.take(k as int));
        assert(sparts.take(k + 1).last() == sparts[k as int]);
        let part = &parts[k];
        let pt = trim(part);
        if pt.len() == 0 {
            k = k + 1;
            continue;
        }
        let name = match find_first_char(part, ':') {
            Some(i) => {
                proof { lemma_find_char_some(part@, ':'); }
                let head = subvec(part, 0, i);
                trim(&head)
            },
            None => trim(part),
        };
        assert(name@ == variant_name_of(sparts[k as int]));
        if name.len() == 0 {
            proof {
                assert(spec_variant_names(sparts.take(k + 1)) is None);
                lemma_variant_names_none_stays(sparts, k as int + 1);
            }
            return None;
        }
        names.push(crate::text::string_from_chars(&name));
        proof {
            let ns = prev.push(name@);
            assert(spec_variant_names(sparts.take(k + 1)) == Some(ns));
            assert forall|j: int| 0 <= j < ns.len() implies (#[trigger] names@[j])@ == ns[j] by {
                if j < prev.len() {
                    assert(names@[j] == old_names_at(names@, j));
                }
            }
        }
        k = k + 1;
    }
    assert(sparts.take(parts@.len() as int) =~= sparts);
    Some(names)
}

spec fn old_names_at(v: Seq<String>, j: int) -> String {
    v[j]
}

proof fn lemma_variant_names_none_stays(parts: Seq<Seq<char>>, k: int)
    requires
        0 <= k <= parts.len(),
        spec_variant_names(parts.take(k)) is None,
    ensures
        spec_variant_names(parts) is None,
    decreases parts.len() - k,
{
    if k < parts.len() {
        assert(parts.take(k + 1).drop_last() =~= parts.take(k));
        lemma_variant_names_none_stays(parts, k + 1);
    } else {
        assert(parts.take(k) =~= parts);
    }
}

/// Some position of `s` holds `c` outside brackets.
pub open spec fn has_top_char(s: Seq<char>, c: char) -> bool {
    exists|p: int| #[trigger] is_top_sep(s, c, p)
}

/// Whether some variant of the enum descriptor has a payload type.
pub open spec fn spec_enum_type_has_payload(s: Seq<char>) -> Option<bool> {
    match spec_parse_enum_descriptor(s) {
        None => None,
        Some((_, inner)) => if spec_trim(inner).len() == 0 {
            Some(false)
        } else {
            Some(parts_have_payload(spec_split_top_level(inner, ',')))
        },
    }
}

/// Some piece has a `:` outside brackets.
pub open spec fn parts_have_payload(parts: Seq<Seq<char>>) -> bool {
    exists|k: int| 0 <= k < parts.len() && has_top_char(#[trigger] parts[k], ':')
}

/// Whether `v` holds `c` outside brackets.
fn has_top_level_char(v: &Vec<char>, c: char) -> (r: bool)
    requires
        !is_bracket(c),
    ensures
        r == has_top_char(v@, c),
{
    let ghost s = v@;
    let mut po: usize = 0;
    let mut pc: usize = 0;
    let mut bo: usize = 0;
    let mut bc: usize = 0;
    let mut co: usize = 0;
    let mut cc: usize = 0;
    let mut idx: usize = 0;
    while idx < v.len()
        invariant
            s == v@,
            !is_bracket(c),
            idx <= s.len(),
            po == count_char(s.take(idx as int), '('),
            pc == count_char(s.take(idx as int), ')'),
            bo == count_char(s.take(idx as int), '['),
            bc == count_char(s.take(idx as int), ']'),
            co == count_char(s.take(idx as int), '{'),
            cc == count_char(s.take(idx as int), '}'),
            forall|p: int| 0 <= p < idx ==> !(#[trigger] is_top_sep(s, c, p)),
        decreases v.len() - idx,
    {
        let ch = v[idx];
        proof {
            lemma_count_char_step(s, idx as int, '(');
            lemma_count_char_step(s, idx as int, ')');
            lemma_count_char_step(s, idx as int, '[');
            lemma_count_char_step(s, idx as int, ']');
            lemma_count_char_step(s, idx as int, '{');
            lemma_count_char_step(s, idx as int, '}');
            lemma_count_char_bound(s.take(idx as int), '(');
            lemma_count_char_bound(s.take(idx as int), '[');
            lemma_count_char_bound(s.take(idx as int), '{');
            lemma_count_char_bound(s.take(idx as int), ')');
            lemma_count_char_bound(s.take(idx as int), ']');
            lemma_count_char_bound(s.take(idx as int), '}');
        }
        if ch == c && po == pc && bo == bc && co == cc {
            assert(is_top_sep(s, c, idx as int));
            return true;
        }
        if ch == '(' {
            po = po + 1;
        } else if ch == ')' {
            pc = pc + 1;
        } else if ch == '[' {
            bo = bo + 1;
        } else if ch == ']' {
            bc = bc + 1;
        } else if ch == '{' {
            co = co + 1;
        } else if ch == '}' {
            cc = cc + 1;
        }
        idx = idx + 1;
    }
    false
}

/// Whether some variant of the enum descriptor carries a payload.
fn enum_has_payload_chars(v: &Vec<char>) -> (r: Option<bool>)
    ensures
        r == spec_enum_type_has_payload(v@),
{
    let (_, inner) = match parse_enum_type_descriptor(v) {
        None => return None,
        Some(x) => x,
    };
    let t = trim(&inner);
    if t.len() == 0 {
        return Some(false);
    }
    let parts = split_top_level(&inner, ',');
    let ghost sparts = spec_split_top_level(inner@, ',');
    let mut k: usize = 0;
    while k < parts.len()
        invariant
            spec_parse_enum_descriptor(v@) matches Some(x) && x.1 == inner@,
            spec_trim(inner@).len() != 0,
            sparts == spec_split_top_level(inner@, ','),
            parts@.len() == sparts.len(),
            forall|j: int| 0 <= j < parts@.len() ==> (#[trigger] parts@[j])@ == sparts[j],
            k <= parts@.len(),
            forall|j: int| 0 <= j < k ==> !has_top_char(#[trigger] sparts[j], ':'),
        decreases parts.len() - k,
    {
        if has_top_level_char(&parts[k], ':') {
            assert(has_top_char(sparts[k as int], ':'));
            assert(parts_have_payload(sparts));
            return Some(true);
        }
        k = k + 1;
    }
    Some(false)
}

/// Whether some variant of the enum type descriptor carries a payload.
pub fn enum_type_has_payload(descriptor: &str) -> (r: Option<bool>)
    ensures
        r == spec_enum_type_has_payload(descriptor@),
{
    let v = chars_of(descriptor);
    enum_has_payload_chars(&v)
}

/// A type hint with an optional `?` and any error set after `!` removed.
pub open spec fn hint_normalized(t: Seq<char>) -> Seq<char> {
    let n1 = if is_prefix("?"@, t) { spec_trim(t.drop_first()) } else { t };
    match spec_find_char(n1, '!') {
        Some(i) => spec_trim(n1.take(i)),
        None => n1,
    }
}

/// A parsed width that a float type may have.
pub open spec fn float_width(b: Option<nat>) -> bool {
    b == Some(32nat) || b == Some(64nat) || b == Some(128nat)
}

/// The value type that a normalized type name denotes.
#[verifier::opaque]
pub open spec fn spec_classify_type_name(n: Seq<char>) -> MirValueType {
    if n == "u1"@ {
        MirValueType::Bool
    } else if n == "[]u8"@ {
        MirValueType::BytesSlice
    } else if n == "type"@ {
        MirValueType::Type
    } else if n == "isize"@ {
        MirValueType::Int { signed: true, bits: 64 }
    } else if n == "usize"@ || n == "opaque"@ || n == "any"@ {
        MirValueType::Int { signed: false, bits: 64 }
    } else if is_prefix("*"@, n) || is_prefix("[]"@, n) {
        MirValueType::Int { signed: false, bits: 64 }
    } else if is_prefix("enum"@, n) {
        if spec_enum_type_has_payload(n) == Some(false) && spec_parse_enum_descriptor(n) is Some {
            MirValueType::Int { signed: false, bits: spec_parse_enum_descriptor(n).unwrap().0 }
        } else {
            MirValueType::Unknown
        }
    } else if is_prefix("i"@, n) && spec_parse_unsigned(n.drop_first(), 65535) is Some {
        MirValueType::Int { signed: true, bits: spec_parse_unsigned(n.drop_first(), 65535).unwrap() as u16 }
    } else if is_prefix("u"@, n) && spec_parse_unsigned(n.drop_first(), 65535) is Some {
        MirValueType::Int { signed: false, bits: spec_parse_unsigned(n.drop_first(), 65535).unwrap() as u16 }
    } else if is_prefix("f"@, n) && float_width(spec_parse_unsigned(n.drop_first(), 65535)) {
        MirValueType::Float { bits: spec_parse_unsigned(n.drop_first(), 65535).unwrap() as u16 }
    } else {
        MirValueType::Unknown
    }
}

/// The value type that a type hint denotes: function pointers, then the
/// normalized name's class.
pub open spec fn spec_parse_type_hint(text: Seq<char>) -> MirValueType {
    let t = spec_trim(text);
    if is_prefix("fn/"@, t) || is_prefix("fn("@, t) || (is_prefix("("@, t) && contains_seq(t, ")->"@)) {
        MirValueType::FunctionPointer
    } else {
        spec_classify_type_name(hint_normalized(t))
    }
}

/// A type hint that names a function pointer by its shape.
pub open spec fn fn_pointer_hint(t: Seq<char>) -> bool {
    is_prefix("fn/"@, t) || is_prefix("fn("@, t) || (is_prefix("("@, t) && contains_seq(t, ")->"@))
}

/// A type hint reads the same with one leading `?`, and with any error set
/// after `!` (also an empty one): `?T` and `T!E` denote what `T` denotes.
/// This holds for a trimmed `T` that does not begin with `?`, `(`, `fn/` or
/// `fn(`, and, for the second form, holds no `!`.
pub proof fn lemma_type_hint_ignores_optional_and_error_set(t: Seq<char>, e: Seq<char>)
    requires
        spec_trim(t) == t,
        !is_prefix("?"@, t),
        !is_prefix("("@, t),
        !is_prefix("fn/"@, t),
        !is_prefix("fn("@, t),
    ensures
        spec_parse_type_hint("?"@ + t) == spec_parse_type_hint(t),
        (forall|j: int| 0 <= j < t.len() ==> t[j] != '!') ==> spec_parse_type_hint(t + "!"@ + e)
            == spec_parse_type_hint(t),
{
    reveal_strlit("?");
    reveal_strlit("!");
    reveal_strlit("fn/");
    reveal_strlit("fn(");
    reveal_strlit("(");
    crate::text::lemma_trim_unpadded(t);
    assert(!fn_pointer_hint(t));
    let q = "?"@ + t;
    crate::text::lemma_trim_unpadded(q);
    assert(q[0] == '?');
    if t.len() > 0 {
        assert(q.last() == t.last());
    }
    assert(spec_trim(q) == q);
    assert(q.drop_first() =~= t);
    assert(q.subrange(0, 1) =~= "?"@);
    assert(is_prefix("?"@, q));
    if is_prefix("fn/"@, q) {
        assert(q.subrange(0, 3)[0] == q[0]);
    }
    if is_prefix("fn("@, q) {
        assert(q.subrange(0, 3)[0] == q[0]);
    }
    if is_prefix("("@, q) {
        assert(q.subrange(0, 1)[0] == q[0]);
    }
    assert(!fn_pointer_hint(q));
    assert(hint_normalized(q) == hint_normalized(t));
    if forall|j: int| 0 <= j < t.len() ==> t[j] != '!' {
        let w = t + "!"@ + e;
        let n = t.len() as int;
        assert(w[n] == '!');
        if t.len() > 0 {
            assert(w[0] == t[0]);
        }
        crate::text::lemma_trim_keeps_prefix(w, n);
        let v = spec_trim(w);
        assert(v[n] == '!');
        assert forall|j: int| 0 <= j < n implies v[j] == t[j] by {
            assert(v[j] == w[j]);
        }
        crate::text::lemma_find_char_unique(v, '!', n);
        assert(v.take(n) =~= t);
        if t.len() > 0 {
            assert(v[0] == t[0]);
        }
        if t.len() > 0 && t[0] == '?' {
            assert(t.subrange(0, 1) =~= "?"@);
        }
        if is_prefix("?"@, v) {
            assert(v.subrange(0, 1)[0] == v[0]);
        }
        assert(!is_prefix("?"@, v));
        if is_prefix("("@, v) {
            assert(v.subrange(0, 1)[0] == v[0]);
            if t.len() > 0 {
                assert(t.subrange(0, 1) =~= v.subrange(0, 1));
            }
        }
        if is_prefix("fn/"@, v) {
            if n >= 3 {
                assert(t.subrange(0, 3) =~= v.subrange(0, 3));
            } else {
                assert(v.subrange(0, 3)[n] == v[n]);
            }
        }
        if is_prefix("fn("@, v) {
            if n >= 3 {
                assert(t.subrange(0, 3) =~= v.subrange(0, 3));
            } else {
                assert(v.subrange(0, 3)[n] == v[n]);
            }
        }
        assert(!fn_pointer_hint(v));
        assert(hint_normalized(v) == hint_normalized(t));
        crate::text::lemma_find_char_some(t, '!');
    }
}

fn classify_type_name(n: &Vec<char>) -> (r: MirValueType)
    ensures
        r == spec_classify_type_name(n@),
{
    reveal(spec_classify_type_name);
    if eq_str(n, "u1") {
        return MirValueType::Bool;
    }
    if eq_str(n, "[]u8") {
        return MirValueType::BytesSlice;
    }
    if eq_str(n, "type") {
        return MirValueType::Type;
    }
    if eq_str(n, "isize") {
        return MirValueType::Int { signed: true, bits: 64 };
    }
    if eq_str(n, "usize") || eq_str(n, "opaque") || eq_str(n, "any") {
        return MirValueType::Int { signed: false, bits: 64 };
    }
    if starts_with_str(n, "*") || starts_with_str(n, "[]") {
        return MirValueType::Int { signed: false, bits: 64 };
    }
    if starts_with_str(n, "enum") {
        if enum_has_payload_chars(n) == Some(false) {
            match parse_enum_type_descriptor(n) {
                Some((bits, _)) => {
                    return MirValueType::Int { signed: false, bits };
                },
                None => {},
            }
        }
        return MirValueType::Unknown;
    }
    let rest = if n.len() > 0 { subvec(n, 1, n.len()) } else { Vec::new() };
    proof {
        if n@.len() > 0 {
            assert(rest@ == n@.drop_first());
        }
    }
    if starts_with_str(n, "i") {
        proof { reveal_strlit("i"); }
        match parse_unsigned(&rest, 65535) {
            Some(bits) => {
                return MirValueType::Int { signed: true, bits: bits as u16 };
            },
            None => {},
        }
    }
    if starts_with_str(n, "u") {
        proof { reveal_strlit("u"); }
        match parse_unsigned(&rest, 65535) {
            Some(bits) => {
                return MirValueType::Int { signed: false, bits: bits as u16 };
            },
            None => {},
        }
    }
    if starts_with_str(n, "f") {
        proof { reveal_strlit("f"); }
        match parse_unsigned(&rest, 65535) {
            Some(bits) => {
                if bits == 32 || bits == 64 || bits == 128 {
                    return MirValueType::Float { bits: bits as u16 };
                }
            },
            None => {},
        }
    }
    proof {
        reveal_strlit("i");
        reveal_strlit("u");
        reveal_strlit("f");
    }
    MirValueType::Unknown
}

/// White space around a type hint does not change what it denotes.
pub proof fn lemma_type_hint_ignores_surrounding_space(text: Seq<char>)
    ensures
        spec_parse_type_hint(spec_trim(text)) == spec_parse_type_hint(text),
{
    crate::text::lemma_trim_idempotent(text);
}

/// The value type that a type hint denotes.
pub fn parse_type_hint(text: &str) -> (r: MirValueType)
    ensures
        r == spec_parse_type_hint(text@),
{
    let t = trimmed_chars(text);
    proof { crate::text::lemma_trim_idempotent(text@); }
    parse_type_hint_chars(&t)
}

/// The value type that a type hint, given as characters, denotes.
pub fn parse_type_hint_text(v: &Vec<char>) -> (r: MirValueType)
    ensures
        r == spec_parse_type_hint(v@),
{
    let t = trim(v);
    proof { crate::text::lemma_trim_idempotent(v@); }
    parse_type_hint_chars(&t)
}

/// The value type of an already-trimmed type hint.
fn parse_type_hint_chars(t: &Vec<char>) -> (r: MirValueType)
    requires
        spec_trim(t@) == t@,
    ensures
        r == spec_parse_type_hint(t@),
{
    if starts_with_str(t, "fn/") || starts_with_str(t, "fn(") || (starts_with_str(t, "(") && find_str(t, ")->").is_some()) {
        return MirValueType::FunctionPointer;
    }
    let n1 = if starts_with_str(t, "?") {
        proof { reveal_strlit("?"); }
        let rest = subvec(t, 1, t.len());
        assert(rest@ == t@.drop_first());
        trim(&rest)
    } else {
        subvec(t, 0, t.len())
    };
    assert(t@.subrange(0, t@.len() as int) =~= t@);
    let normalized = match find_first_char(&n1, '!') {
        Some(i) => {
            let head = subvec(&n1, 0, i);
            trim(&head)
        },
        None => n1,
    };
    classify_type_name(&normalized)
}

/// The value type after the last `->` of a function type hint, unless it is unknown.
pub open spec fn spec_parse_function_return_hint(text: Seq<char>) -> Option<MirValueType> {
    let t = spec_trim(text);
    if contains_seq(t, "->"@) {
        let i = choose|i: int| occurs_at("->"@, t, i) && forall|j: int| i < j ==> !occurs_at("->"@, t, j);
        let parsed = spec_parse_type_hint(t.skip(i + 2));
        if parsed is Unknown { None } else { Some(parsed) }
    } else {
        None
    }
}

/// The return type of a function type hint, unless it is unknown.
pub fn parse_function_return_hint(text: &str) -> (r: Option<MirValueType>)
    ensures
        r == spec_parse_function_return_hint(text@),
{
    let t = trimmed_chars(text);
    let arrow = match rfind_str(&t, "->") {
        None => return None,
        Some(a) => a,
    };
    proof {
        reveal_strlit("->");
        let i = choose|i: int| occurs_at("->"@, t@, i) && forall|j: int| i < j ==> !occurs_at("->"@, t@, j);
        if i < arrow {
        } else if arrow < i {
        }
        assert(i == arrow as int);
        crate::text::lemma_trim_idempotent(text@);
    }
    let n = t.len();
    assert(arrow + 2 <= n);
    let ret = subvec(&t, arrow + 2, n);
    assert(ret@ == t@.skip(arrow + 2));
    let rt = trim(&ret);
    proof { crate::text::lemma_trim_idempotent(ret@); }
    let parsed = parse_type_hint_chars(&rt);
    proof { crate::text::lemma_trim_idempotent(ret@); }
    match parsed {
        MirValueType::Unknown => None,
        _ => Some(parsed),
    }
}

/// The value of an integer literal's text, `_` separators ignored.
pub open spec fn spec_parse_i64_literal(text: Seq<char>) -> Option<int> {
    spec_parse_i64(without_underscores(text))
}

/// Parses an integer literal's text, ignoring `_` separators.
pub fn parse_i64_literal(text: &str) -> (r: Option<i64>)
    ensures
        match spec_parse_i64_literal(text@) {
            Some(n) => r == Some(n as i64),
            None => r is None,
        },
{
    let v = chars_of(text);
    let w = remove_underscores(&v);
    parse_i64(&w)
}

/// Whether a compile-time value counts as true: booleans by value, `null`
/// never, integers when they parse and are not zero, characters when not
/// NUL, strings when not empty, types and functions always. `None` for a
/// float literal, whose truth is a floating-point comparison.
pub open spec fn spec_comptime_truthy(value: ComptimeValueView) -> Option<bool> {
    match value {
        ComptimeValueView::Literal(HirLiteralView::Bool(b)) => Some(b),
        ComptimeValueView::Literal(HirLiteralView::Null) => Some(false),
        ComptimeValueView::Literal(HirLiteralView::Integer(t)) => Some(
            match spec_parse_i64_literal(t) {
                Some(n) => n != 0,
                None => false,
            },
        ),
        ComptimeValueView::Literal(HirLiteralView::Float(_)) => None,
        ComptimeValueView::Literal(HirLiteralView::Char(c)) => Some(c != '\0'),
        ComptimeValueView::Literal(HirLiteralView::String(t)) => Some(t.len() > 0),
        ComptimeValueView::Type(_) | ComptimeValueView::Function(_) => Some(true),
    }
}

/// Whether a compile-time value counts as true; `None` for a float literal.
pub fn comptime_truthy(value: &ComptimeValue) -> (r: Option<bool>)
    ensures
        r == spec_comptime_truthy(value@),
{
    match value {
        ComptimeValue::Literal(HirLiteral::Bool(v)) => Some(*v),
        ComptimeValue::Literal(HirLiteral::Null) => Some(false),
        ComptimeValue::Literal(HirLiteral::Integer(v)) => Some(
            match parse_i64_literal(v.as_str()) {
                Some(n) => n != 0,
                None => false,
            },
        ),
        ComptimeValue::Literal(HirLiteral::Float(_)) => None,
        ComptimeValue::Literal(HirLiteral::Char(c)) => Some(*c != '\0'),
        ComptimeValue::Literal(HirLiteral::String(v)) => Some(chars_of_string(v).len() > 0),
        ComptimeValue::Type(_) | ComptimeValue::Function(_) => Some(true),
    }
}

/// A signed 64-bit value.
pub open spec fn in_i64(x: int) -> bool {
    i64::MIN <= x <= i64::MAX
}

/// Quotient rounded toward zero, as Rust's `/` on integers computes it.
pub open spec fn trunc_div(l: int, r: int) -> int {
    let q = (if l < 0 { -l } else { l }) / (if r < 0 { -r } else { r });
    if (l < 0) == (r < 0) { q } else { -q }
}

/// Remainder of the quotient rounded toward zero, as Rust's `%` computes it.
pub open spec fn trunc_rem(l: int, r: int) -> int {
    l - r * trunc_div(l, r)
}

/// An integer literal value.
pub open spec fn int_value(n: int) -> ComptimeValueView {
    ComptimeValueView::Literal(HirLiteralView::Integer(spec_int_text(n)))
}

/// A boolean literal value.
pub open spec fn bool_value(b: bool) -> ComptimeValueView {
    ComptimeValueView::Literal(HirLiteralView::Bool(b))
}

/// `op` applied to two integers; `None` where Rust's checked 64-bit arithmetic fails.
pub open spec fn spec_eval_int_binary(op: BinaryOp, l: i64, r: i64) -> Option<ComptimeValueView> {
    let li = l as int;
    let ri = r as int;
    match op {
        BinaryOp::Add => if in_i64(li + ri) { Some(int_value(li + ri)) } else { None },
        BinaryOp::Sub => if in_i64(li - ri) { Some(int_value(li - ri)) } else { None },
        BinaryOp::Mul => if in_i64(li * ri) { Some(int_value(li * ri)) } else { None },
        BinaryOp::Div => if ri == 0 || !in_i64(trunc_div(li, ri)) { None } else { Some(int_value(trunc_div(li, ri))) },
        BinaryOp::Mod => if ri == 0 || !in_i64(trunc_div(li, ri)) { None } else { Some(int_value(trunc_rem(li, ri))) },
        BinaryOp::Eq => Some(bool_value(li == ri)),
        BinaryOp::Ne => Some(bool_value(li != ri)),
        BinaryOp::Lt => Some(bool_value(li < ri)),
        BinaryOp::Le => Some(bool_value(li <= ri)),
        BinaryOp::Gt => Some(bool_value(li > ri)),
        BinaryOp::Ge => Some(bool_value(li >= ri)),
        BinaryOp::BitAnd => Some(int_value((l & r) as int)),
        BinaryOp::BitOr => Some(int_value((l | r) as int)),
        BinaryOp::BitXor => Some(int_value((l ^ r) as int)),
        BinaryOp::Shl => if ri < 0 || ri % 0x1_0000_0000 >= 64 { None } else {
            Some(int_value((((l as u64) << ((ri % 0x1_0000_0000) as u64)) as i64) as int))
        },
        BinaryOp::Shr => if ri < 0 || ri % 0x1_0000_0000 >= 64 { None } else {
            Some(int_value((l >> ((ri % 0x1_0000_0000) as u64)) as int))
        },
        _ => None,
    }
}

/// `op` applied to two compile-time values: integers, booleans, or names of
/// types or functions compared for equality.
pub open spec fn spec_eval_comptime_binary(op: BinaryOp, left: ComptimeValueView, right: ComptimeValueView) -> Option<ComptimeValueView> {
    match (left, right) {
        (ComptimeValueView::Literal(HirLiteralView::Integer(a)), ComptimeValueView::Literal(HirLiteralView::Integer(b))) =>
            match (spec_parse_i64_literal(a), spec_parse_i64_literal(b)) {
            (Some(l), Some(r)) => spec_eval_int_binary(op, l as i64, r as i64),
            _ => None,
        },
        (ComptimeValueView::Literal(HirLiteralView::Bool(l)), ComptimeValueView::Literal(HirLiteralView::Bool(r))) =>
            match op {
            BinaryOp::LogicalAnd => Some(bool_value(l && r)),
            BinaryOp::LogicalOr => Some(bool_value(l || r)),
            BinaryOp::Eq => Some(bool_value(l == r)),
            BinaryOp::Ne => Some(bool_value(l != r)),
            _ => None,
        },
        (ComptimeValueView::Type(l), ComptimeValueView::Type(r)) | (ComptimeValueView::Function(l), ComptimeValueView::Function(r)) =>
            match op {
            BinaryOp::Eq => Some(bool_value(l == r)),
            BinaryOp::Ne => Some(bool_value(l != r)),
            _ => None,
        },
        _ => None,
    }
}

fn int_literal(n: i64) -> (r: ComptimeValue)
    ensures
        r@ == int_value(n as int),
{
    ComptimeValue::Literal(HirLiteral::Integer(i64_to_string(n)))
}

fn bool_literal(b: bool) -> (r: ComptimeValue)
    ensures
        r@ == bool_value(b),
{
    ComptimeValue::Literal(HirLiteral::Bool(b))
}

/// Absolute value of `x` as an unsigned number.
fn magnitude(x: i64) -> (r: u64)
    ensures
        r as int == (if x < 0 { -(x as int) } else { x as int }),
{
    if x == i64::MIN {
        0x8000_0000_0000_0000
    } else if x < 0 {
        (-x) as u64
    } else {
        x as u64
    }
}

fn eval_int_binary(op: BinaryOp, l: i64, r: i64) -> (res: Option<ComptimeValue>)
    ensures
        match spec_eval_int_binary(op, l, r) {
            None => res is None,
            Some(v) => res matches Some(x) && x@ == v,
        },
{
    match op {
        BinaryOp::Add => match l.checked_add(r) {
            Some(v) => Some(int_literal(v)),
            None => None,
        },
        BinaryOp::Sub => match l.checked_sub(r) {
            Some(v) => Some(int_literal(v)),
            None => None,
        },
        BinaryOp::Mul => match l.checked_mul(r) {
            Some(v) => Some(int_literal(v)),
            None => None,
        },
        BinaryOp::Div | BinaryOp::Mod => {
            if r == 0 {
                return None;
            }
            let lm = magnitude(l);
            let rm = magnitude(r);
            let qm = lm / rm;
            let negative = (l < 0) != (r < 0);
            if !negative && qm > 0x7fff_ffff_ffff_ffff {
                return None;
            }
            let q: i64 = if negative {
                if qm == 0x8000_0000_0000_0000 { i64::MIN } else { -(qm as i64) }
            } else {
                qm as i64
            };
            assert(q as int == trunc_div(l as int, r as int));
            if op == BinaryOp::Div {
                Some(int_literal(q))
            } else {
                proof {
                    let li = l as int;
                    let ri = r as int;
                    let lmi = lm as int;
                    let rmi = rm as int;
                    let qmi = qm as int;
                    assert(lmi == qmi * rmi + lmi % rmi) by (nonlinear_arith)
                        requires rmi > 0, qmi == lmi / rmi;
                    assert(0 <= lmi % rmi < rmi) by (nonlinear_arith)
                        requires rmi > 0;
                }
                let rem: i64 = if l < 0 { -((lm % rm) as i64) } else { (lm % rm) as i64 };
                proof {
                    let li = l as int;
                    let ri = r as int;
                    assert(rem as int == trunc_rem(li, ri)) by (nonlinear_arith)
                        requires
                            lm as int == (if li < 0 { -li } else { li }),
                            rm as int == (if ri < 0 { -ri } else { ri }),
                            rm > 0,
                            qm as int == (lm as int) / (rm as int),
                            lm as int == (qm as int) * (rm as int) + (lm as int) % (rm as int),
                            q as int == (if (li < 0) == (ri < 0) { qm as int } else { -(qm as int) }),
                            rem as int == (if li < 0 { -((lm as int) % (rm as int)) } else { (lm as int) % (rm as int) }),
                            trunc_div(li, ri) == q as int;
                }
                Some(int_literal(rem))
            }
        },
        BinaryOp::Eq => Some(bool_literal(l == r)),
        BinaryOp::Ne => Some(bool_literal(l != r)),
        BinaryOp::Lt => Some(bool_literal(l < r)),
        BinaryOp::Le => Some(bool_literal(l <= r)),
        BinaryOp::Gt => Some(bool_literal(l > r)),
        BinaryOp::Ge => Some(bool_literal(l >= r)),
        BinaryOp::BitAnd => Some(int_literal(l & r)),
        BinaryOp::BitOr => Some(int_literal(l | r)),
        BinaryOp::BitXor => Some(int_literal(l ^ r)),
        BinaryOp::Shl | BinaryOp::Shr => {
            if r < 0 {
                return None;
            }
            let amount: u64 = (r as u64) % 0x1_0000_0000;
            if amount >= 64 {
                return None;
            }
            if op == BinaryOp::Shl {
                Some(int_literal(((l as u64) << amount) as i64))
            } else {
                Some(int_literal(l >> amount))
            }
        },
        _ => None,
    }
}

/// Folds `op` over two compile-time values, when the operation is defined
/// on them and does not overflow.
pub fn eval_comptime_binary(op: BinaryOp, left: ComptimeValue, right: ComptimeValue) -> (r: Option<ComptimeValue>)
    ensures
        match spec_eval_comptime_binary(op, left@, right@) {
            None => r is None,
            Some(v) => r matches Some(x) && x@ == v,
        },
{
    match (left, right) {
        (ComptimeValue::Literal(HirLiteral::Integer(l)), ComptimeValue::Literal(HirLiteral::Integer(r))) => {
            let lv = match parse_i64_literal(l.as_str()) {
                Some(v) => v,
                None => return None,
            };
            let rv = match parse_i64_literal(r.as_str()) {
                Some(v) => v,
                None => return None,
            };
            eval_int_binary(op, lv, rv)
        },
        (ComptimeValue::Literal(HirLiteral::Bool(l)), ComptimeValue::Literal(HirLiteral::Bool(r))) => {
            match op {
                BinaryOp::LogicalAnd => Some(bool_literal(l && r)),
                BinaryOp::LogicalOr => Some(bool_literal(l || r)),
                BinaryOp::Eq => Some(bool_literal(l == r)),
                BinaryOp::Ne => Some(bool_literal(l != r)),
                _ => None,
            }
        },
        (ComptimeValue::Type(l), ComptimeValue::Type(r)) | (ComptimeValue::Function(l), ComptimeValue::Function(r)) => {
            match op {
                BinaryOp::Eq => Some(bool_literal(string_eq(&l, &r))),
                BinaryOp::Ne => Some(bool_literal(!string_eq(&l, &r))),
                _ => None,
            }
        },
        _ => None,
    }
}

/// An integer literal with text `t`.
pub open spec fn int_text_value(t: Seq<char>) -> ComptimeValueView {
    ComptimeValueView::Literal(HirLiteralView::Integer(t))
}

/// Folding `op` over the integer literals with texts `a` and `b`.
pub open spec fn fold_ints(op: BinaryOp, a: Seq<char>, b: Seq<char>) -> Option<ComptimeValueView> {
    spec_eval_comptime_binary(op, int_text_value(a), int_text_value(b))
}

/// The literal that folding gives for a 64-bit result reads back, as a
/// literal, as that result.
pub proof fn lemma_int_value_reads_back(n: int)
    requires
        in_i64(n),
    ensures
        int_value(n) == int_text_value(spec_int_text(n)),
        spec_parse_i64_literal(spec_int_text(n)) == Some(n),
{
    crate::text::lemma_int_text_reads_back(n);
}

/// Comparing two integer literals that read as `l` and `r` gives the truth
/// of the comparison of `l` and `r`: equal operands are `<=` and `>=` but
/// not `<` or `>`.
pub proof fn lemma_folding_integer_comparisons(a: Seq<char>, b: Seq<char>, l: int, r: int)
    requires
        spec_parse_i64_literal(a) == Some(l),
        spec_parse_i64_literal(b) == Some(r),
    ensures
        fold_ints(BinaryOp::Eq, a, b) == Some(bool_value(l == r)),
        fold_ints(BinaryOp::Ne, a, b) == Some(bool_value(l != r)),
        fold_ints(BinaryOp::Lt, a, b) == Some(bool_value(l < r)),
        fold_ints(BinaryOp::Le, a, b) == Some(bool_value(l <= r)),
        fold_ints(BinaryOp::Gt, a, b) == Some(bool_value(l > r)),
        fold_ints(BinaryOp::Ge, a, b) == Some(bool_value(l >= r)),
        fold_ints(BinaryOp::Le, a, b) == Some(bool_value(fold_ints(BinaryOp::Lt, a, b) == Some(bool_value(true))
            || fold_ints(BinaryOp::Eq, a, b) == Some(bool_value(true)))),
        fold_ints(BinaryOp::Gt, a, b) == fold_ints(BinaryOp::Lt, b, a),
        fold_ints(BinaryOp::Ge, a, b) == fold_ints(BinaryOp::Le, b, a),
{
}

/// Adding, subtracting or multiplying two integer literals that read as `l`
/// and `r` gives the literal of the exact result when it fits in 64 signed
/// bits, and nothing when it does not; addition and multiplication do not
/// depend on the order of the operands.
pub proof fn lemma_folding_integer_arithmetic(a: Seq<char>, b: Seq<char>, l: int, r: int)
    requires
        spec_parse_i64_literal(a) == Some(l),
        spec_parse_i64_literal(b) == Some(r),
    ensures
        fold_ints(BinaryOp::Add, a, b) == (if i64::MIN <= l + r <= i64::MAX { Some(int_value(l + r)) } else { None }),
        fold_ints(BinaryOp::Sub, a, b) == (if i64::MIN <= l - r <= i64::MAX { Some(int_value(l - r)) } else { None }),
        fold_ints(BinaryOp::Mul, a, b) == (if i64::MIN <= l * r <= i64::MAX { Some(int_value(l * r)) } else { None }),
        fold_ints(BinaryOp::Add, a, b) == fold_ints(BinaryOp::Add, b, a),
        fold_ints(BinaryOp::Mul, a, b) == fold_ints(BinaryOp::Mul, b, a),
{
    assert(l * r == r * l) by (nonlinear_arith);
}

/// Dividing two integer literals that read as `l` and `r`: nothing by zero
/// or when the quotient overflows (the least value by -1); otherwise the
/// quotient `q` and remainder `m` satisfy `l == q * r + m`, with `m`
/// smaller than `r` in size and of the sign of `l` (division rounds toward
/// zero).
pub proof fn lemma_folding_integer_division(a: Seq<char>, b: Seq<char>, l: int, r: int)
    requires
        spec_parse_i64_literal(a) == Some(l),
        spec_parse_i64_literal(b) == Some(r),
    ensures
        r == 0 ==> fold_ints(BinaryOp::Div, a, b) is None && fold_ints(BinaryOp::Mod, a, b) is None,
        l == i64::MIN && r == -1 ==> fold_ints(BinaryOp::Div, a, b) is None && fold_ints(BinaryOp::Mod, a, b) is None,
        r != 0 && !(l == i64::MIN && r == -1) ==> exists|q: int, m: int| {
            &&& fold_ints(BinaryOp::Div, a, b) == Some(int_value(q))
            &&& fold_ints(BinaryOp::Mod, a, b) == Some(int_value(m))
            &&& l == q * r + m
            &&& (if m < 0 { -m } else { m }) < (if r < 0 { -r } else { r })
            &&& (m == 0 || (m < 0) == (l < 0))
        },
{
    if r != 0 {
        lemma_trunc_parts(l, r);
        if !(l == i64::MIN && r == -1) {
            let q = trunc_div(l, r);
            let m = trunc_rem(l, r);
            assert(fold_ints(BinaryOp::Div, a, b) == Some(int_value(q)));
            assert(fold_ints(BinaryOp::Mod, a, b) == Some(int_value(m)));
        }
    }
}

/// The bitwise operators on integer literals: `&`, `|` and `^` do not depend
/// on the order of the operands; with zero, `&` gives zero while `|` and `^`
/// give the other operand; with itself, `&` and `|` give the operand and `^`
/// gives zero.
pub proof fn lemma_folding_integer_bitwise(a: Seq<char>, b: Seq<char>, z: Seq<char>, l: i64, r: i64)
    requires
        spec_parse_i64_literal(a) == Some(l as int),
        spec_parse_i64_literal(b) == Some(r as int),
        spec_parse_i64_literal(z) == Some(0int),
    ensures
        fold_ints(BinaryOp::BitAnd, a, b) == fold_ints(BinaryOp::BitAnd, b, a),
        fold_ints(BinaryOp::BitOr, a, b) == fold_ints(BinaryOp::BitOr, b, a),
        fold_ints(BinaryOp::BitXor, a, b) == fold_ints(BinaryOp::BitXor, b, a),
        fold_ints(BinaryOp::BitAnd, a, z) == Some(int_value(0)),
        fold_ints(BinaryOp::BitOr, a, z) == Some(int_value(l as int)),
        fold_ints(BinaryOp::BitXor, a, z) == Some(int_value(l as int)),
        fold_ints(BinaryOp::BitAnd, a, a) == Some(int_value(l as int)),
        fold_ints(BinaryOp::BitOr, a, a) == Some(int_value(l as int)),
        fold_ints(BinaryOp::BitXor, a, a) == Some(int_value(0)),
{
    assert(l & r == r & l) by (bit_vector);
    assert(l | r == r | l) by (bit_vector);
    assert(l ^ r == r ^ l) by (bit_vector);
    assert(l & 0i64 == 0i64) by (bit_vector);
    assert(l | 0i64 == l) by (bit_vector);
    assert(l ^ 0i64 == l) by (bit_vector);
    assert(l & l == l) by (bit_vector);
    assert(l | l == l) by (bit_vector);
    assert(l ^ l == 0i64) by (bit_vector);
    assert((0i64 as int) as i64 == 0i64);
}

/// Shifting integer literals: a negative shift amount gives nothing, a
/// shift by zero gives the operand back, and by one a non-negative operand
/// is doubled (to the left, when that fits) or halved rounding down (to the
/// right).
pub proof fn lemma_folding_integer_shifts(a: Seq<char>, b: Seq<char>, z: Seq<char>, one: Seq<char>, l: i64, r: int)
    requires
        spec_parse_i64_literal(a) == Some(l as int),
        spec_parse_i64_literal(b) == Some(r),
        spec_parse_i64_literal(z) == Some(0int),
        spec_parse_i64_literal(one) == Some(1int),
    ensures
        r < 0 ==> fold_ints(BinaryOp::Shl, a, b) is None && fold_ints(BinaryOp::Shr, a, b) is None,
        fold_ints(BinaryOp::Shl, a, z) == Some(int_value(l as int)),
        fold_ints(BinaryOp::Shr, a, z) == Some(int_value(l as int)),
        0 <= l < 0x4000_0000_0000_0000 ==> fold_ints(BinaryOp::Shl, a, one) == Some(int_value(2 * l)),
        0 <= l ==> fold_ints(BinaryOp::Shr, a, one) == Some(int_value(l / 2)),
{
    assert(((l as u64) << 0u64) as i64 == l) by (bit_vector);
    assert(l >> 0u64 == l) by (bit_vector);
    assert(0 <= l < 0x4000_0000_0000_0000 ==> ((l as u64) << 1u64) as i64 == 2 * l) by (bit_vector);
    assert(0 <= l ==> l >> 1u64 == l / 2) by (bit_vector);
    assert(0int % 0x1_0000_0000 == 0);
    assert(1int % 0x1_0000_0000 == 1);
}

/// Boolean literals fold by the truth tables of `&&`, `||`, `==` and `!=`;
/// names of types or functions compare equal exactly when they are the same.
pub proof fn lemma_folding_booleans_and_names(x: bool, y: bool, m: Seq<char>, n: Seq<char>)
    ensures
        spec_eval_comptime_binary(BinaryOp::LogicalAnd, bool_value(x), bool_value(y)) == Some(bool_value(x && y)),
        spec_eval_comptime_binary(BinaryOp::LogicalOr, bool_value(x), bool_value(y)) == Some(bool_value(x || y)),
        spec_eval_comptime_binary(BinaryOp::Eq, bool_value(x), bool_value(y)) == Some(bool_value(x == y)),
        spec_eval_comptime_binary(BinaryOp::Ne, bool_value(x), bool_value(y)) == Some(bool_value(x != y)),
        spec_eval_comptime_binary(BinaryOp::Eq, ComptimeValueView::Type(m), ComptimeValueView::Type(n)) == Some(bool_value(m == n)),
        spec_eval_comptime_binary(BinaryOp::Ne, ComptimeValueView::Type(m), ComptimeValueView::Type(n)) == Some(bool_value(m != n)),
        spec_eval_comptime_binary(BinaryOp::Eq, ComptimeValueView::Function(m), ComptimeValueView::Function(n)) == Some(bool_value(m == n)),
{
}

proof fn lemma_trunc_parts(l: int, r: int)
    requires
        r != 0,
        i64::MIN <= l <= i64::MAX,
        i64::MIN <= r <= i64::MAX,
    ensures
        l == trunc_div(l, r) * r + trunc_rem(l, r),
        (if trunc_rem(l, r) < 0 { -trunc_rem(l, r) } else { trunc_rem(l, r) }) < (if r < 0 { -r } else { r }),
        trunc_rem(l, r) == 0 || (trunc_rem(l, r) < 0) == (l < 0),
        !(l == i64::MIN && r == -1) ==> i64::MIN <= trunc_div(l, r) <= i64::MAX,
        l == i64::MIN && r == -1 ==> !(i64::MIN <= trunc_div(l, r) <= i64::MAX),
{
    let al: int = if l < 0 { -l } else { l };
    let ar: int = if r < 0 { -r } else { r };
    let qa = al / ar;
    let ma = al % ar;
    assert(al == qa * ar + ma && 0 <= ma < ar) by (nonlinear_arith)
        requires ar > 0, al >= 0, qa == al / ar, ma == al % ar;
    assert(qa >= 0) by (nonlinear_arith)
        requires ar > 0, al >= 0, qa == al / ar;
    let q = trunc_div(l, r);
    assert(q == (if (l < 0) == (r < 0) { qa } else { -qa }));
    let m = trunc_rem(l, r);
    assert(m == l - r * q);
    assert(r * q == (if l < 0 { -(qa * ar) } else { qa * ar })) by (nonlinear_arith)
        requires
            q == (if (l < 0) == (r < 0) { qa } else { -qa }),
            ar == (if r < 0 { -r } else { r });
    assert(m == (if l < 0 { -ma } else { ma }));
    if ar >= 2 {
        assert(qa * 2 <= al) by (nonlinear_arith)
            requires ar >= 2, al == qa * ar + ma, ma >= 0, qa >= 0;
    } else {
        assert(ar == 1);
        assert(qa == al) by (nonlinear_arith)
            requires ar == 1, al == qa * ar + ma, 0 <= ma < ar;
    }
}

/// A cast of a compile-time value to the named type: integers are re-read
/// (wrapped to 64 unsigned bits for unsigned targets), a `u1` keeps a boolean,
/// anything else passes through unchanged.
pub open spec fn spec_eval_comptime_cast(target: Seq<char>, value: ComptimeValueView) -> Option<ComptimeValueView> {
    match value {
        ComptimeValueView::Literal(HirLiteralView::Integer(v)) => if target == "i32"@ || target == "i64"@
            || target == "isize"@ {
            match spec_parse_i64_literal(v) {
                Some(n) => Some(int_value(n)),
                None => None,
            }
        } else if target == "u32"@ || target == "u64"@ || target == "usize"@ {
            match spec_parse_i64_literal(v) {
                Some(n) => Some(ComptimeValueView::Literal(HirLiteralView::Integer(spec_decimal(
                    (if n < 0 { n + 0x1_0000_0000_0000_0000 } else { n }) as nat,
                )))),
                None => None,
            }
        } else {
            Some(value)
        },
        _ => Some(value),
    }
}

/// Casts a compile-time value to the named type.
pub fn eval_comptime_cast(target: &str, value: ComptimeValue) -> (r: Option<ComptimeValue>)
    ensures
        match spec_eval_comptime_cast(target@, value@) {
            None => r is None,
            Some(v) => r matches Some(x) && x@ == v,
        },
{
    let t = chars_of(target);
    match value {
        ComptimeValue::Literal(HirLiteral::Integer(v)) => {
            if eq_str(&t, "i32") || eq_str(&t, "i64") || eq_str(&t, "isize") {
                match parse_i64_literal(v.as_str()) {
                    Some(n) => Some(int_literal(n)),
                    None => None,
                }
            } else if eq_str(&t, "u32") || eq_str(&t, "u64") || eq_str(&t, "usize") {
                match parse_i64_literal(v.as_str()) {
                    Some(n) => {
                        let u: u64 = if n < 0 {
                            let m = magnitude(n);
                            (0xffff_ffff_ffff_ffffu64 - m) + 1
                        } else {
                            n as u64
                        };
                        Some(ComptimeValue::Literal(HirLiteral::Integer(u64_to_string(u))))
                    },
                    None => None,
                }
            } else {
                Some(ComptimeValue::Literal(HirLiteral::Integer(v)))
            }
        },
        other => Some(other),
    }
}

/// The value type of a literal.
pub open spec fn spec_literal_type(lit: HirLiteralView) -> MirValueType {
    match lit {
        HirLiteralView::Integer(_) => MirValueType::Int { signed: true, bits: 32 },
        HirLiteralView::Float(_) => MirValueType::Float { bits: 64 },
        HirLiteralView::Bool(_) => MirValueType::Bool,
        HirLiteralView::Char(_) => MirValueType::Int { signed: false, bits: 8 },
        HirLiteralView::String(_) => MirValueType::BytesSlice,
        HirLiteralView::Null => MirValueType::Int { signed: false, bits: 64 },
    }
}

/// The value type of a literal.
pub fn literal_type(literal: &HirLiteral) -> (r: MirValueType)
    ensures
        r == spec_literal_type(literal@),
{
    match literal {
        HirLiteral::Integer(_) => MirValueType::Int { signed: true, bits: 32 },
        HirLiteral::Float(_) => MirValueType::Float { bits: 64 },
        HirLiteral::Bool(_) => MirValueType::Bool,
        HirLiteral::Char(_) => MirValueType::Int { signed: false, bits: 8 },
        HirLiteral::String(_) => MirValueType::BytesSlice,
        HirLiteral::Null => MirValueType::Int { signed: false, bits: 64 },
    }
}

/// The common type of two value types: equal types stay, an unknown side
/// yields the other, integers widen (signed if either is), floats widen,
/// anything else is unknown.
pub open spec fn spec_merge_types(left: MirValueType, right: MirValueType) -> MirValueType {
    if left == right {
        left
    } else {
        match (left, right) {
            (MirValueType::Unknown, other) => other,
            (other, MirValueType::Unknown) => other,
            (MirValueType::Int { signed: ls, bits: lb }, MirValueType::Int { signed: rs, bits: rb }) =>
                MirValueType::Int { signed: ls || rs, bits: if lb >= rb { lb } else { rb } },
            (MirValueType::Float { bits: lb }, MirValueType::Float { bits: rb }) =>
                MirValueType::Float { bits: if lb >= rb { lb } else { rb } },
            _ => MirValueType::Unknown,
        }
    }
}

/// The common type of two value types.
pub fn merge_types(left: &MirValueType, right: &MirValueType) -> (r: MirValueType)
    ensures
        r == spec_merge_types(*left, *right),
{
    if *left == *right {
        return *left;
    }
    match (left, right) {
        (MirValueType::Unknown, other) => *other,
        (other, MirValueType::Unknown) => *other,
        (MirValueType::Int { signed: ls, bits: lb }, MirValueType::Int { signed: rs, bits: rb }) =>
            MirValueType::Int { signed: *ls || *rs, bits: if *lb >= *rb { *lb } else { *rb } },
        (MirValueType::Float { bits: lb }, MirValueType::Float { bits: rb }) =>
            MirValueType::Float { bits: if *lb >= *rb { *lb } else { *rb } },
        (MirValueType::BytesSlice, MirValueType::BytesSlice) => MirValueType::BytesSlice,
        _ => MirValueType::Unknown,
    }
}

/// Merging two value types does not depend on which of them comes first.
pub proof fn lemma_merge_types_commutative(left: MirValueType, right: MirValueType)
    ensures
        spec_merge_types(left, right) == spec_merge_types(right, left),
{
}

/// The broad class of a type name.
pub open spec fn spec_type_class(name: Seq<char>) -> Seq<char> {
    if name == "u8"@ || name == "u16"@ || name == "u32"@ || name == "u64"@ || name == "usize"@ {
        "uint"@
    } else if name == "i8"@ || name == "i16"@ || name == "i32"@ || name == "i64"@ {
        "sint"@
    } else if name == "f32"@ || name == "f64"@ {
        "float"@
    } else if name == "u1"@ {
        "bool-class"@
    } else if name == "[]u8"@ {
        "bytes"@
    } else {
        "struct"@
    }
}

/// Map a concrete type name to its broad type class, as returned by `$typeclass`.
///
/// - `u8 / u16 / u32 / u64 / usize` → `"uint"`
/// - `i8 / i16 / i32 / i64`         → `"sint"`
/// - `f32 / f64`                     → `"float"`
/// - `u1`                            → `"bool-class"`
/// - `[]u8`                          → `"bytes"`
/// - anything else                   → `"struct"`
pub fn type_name_to_class(name: &str) -> (r: &'static str)
    ensures
        r@ == spec_type_class(name@),
{
    let n = chars_of(name);
    if eq_str(&n, "u8") || eq_str(&n, "u16") || eq_str(&n, "u32") || eq_str(&n, "u64") || eq_str(&n, "usize") {
        "uint"
    } else if eq_str(&n, "i8") || eq_str(&n, "i16") || eq_str(&n, "i32") || eq_str(&n, "i64") {
        "sint"
    } else if eq_str(&n, "f32") || eq_str(&n, "f64") {
        "float"
    } else if eq_str(&n, "u1") {
        "bool-class"
    } else if eq_str(&n, "[]u8") {
        "bytes"
    } else {
        "struct"
    }
}

/// The struct type that a `self` parameter hint names, with `*mut ` or `*` removed.
pub open spec fn spec_self_type_literal(text: Seq<char>) -> Seq<char> {
    let h = spec_trim(text);
    if is_prefix("*mut "@, h) {
        spec_trim(h.skip(5))
    } else if is_prefix("*"@, h) {
        spec_trim(h.skip(1))
    } else {
        h
    }
}

/// The struct type that a `self` parameter hint names.
pub fn self_type_literal_from_param_hint(text: &str) -> (r: String)
    ensures
        r@ == spec_self_type_literal(text@),
{
    let h = trimmed_chars(text);
    let out = if starts_with_str(&h, "*mut ") {
        proof { reveal_strlit("*mut "); }
        let rest = subvec(&h, 5, h.len());
        trim(&rest)
    } else if starts_with_str(&h, "*") {
        proof { reveal_strlit("*"); }
        let rest = subvec(&h, 1, h.len());
        trim(&rest)
    } else {
        h
    };
    string_from_chars(&out)
}

/// The value paired with `key` first in an association list.
pub open spec fn assoc_lookup(list: Seq<(String, String)>, key: Seq<char>) -> Option<Seq<char>>
    decreases list.len(),
{
    if list.len() == 0 {
        None
    } else if list[0].0@ == key {
        Some(list[0].1@)
    } else {
        assoc_lookup(list.drop_first(), key)
    }
}

/// Looks up `key` in an association list of names.
pub fn assoc_get(list: &Vec<(String, String)>, key: &String) -> (r: Option<String>)
    ensures
        match assoc_lookup(list@, key@) {
            None => r is None,
            Some(v) => r matches Some(x) && x@ == v,
        },
{
    let mut i: usize = 0;
    assert(list@.skip(0) =~= list@);
    while i < list.len()
        invariant
            i <= list@.len(),
            assoc_lookup(list@, key@) == assoc_lookup(list@.skip(i as int), key@),
        decreases list.len() - i,
    {
        assert(list@.skip(i as int)[0] == list@[i as int]);
        assert(list@.skip(i as int).drop_first() =~= list@.skip(i + 1));
        if string_eq(&list[i].0, key) {
            return Some(list[i].1.clone());
        }
        i = i + 1;
    }
    None
}

/// The type literal that a name stands for: a named type literal, or the
/// name itself when it is a known type.
pub open spec fn spec_type_literal_name_for_ident(name: Seq<char>, named: Seq<(String, String)>) -> Option<Seq<char>> {
    match assoc_lookup(named, name) {
        Some(lit) => Some(lit),
        None => if !(spec_parse_type_hint(name) is Unknown) || name == "type"@ || name == "opaque"@
            || name == "any"@ {
            Some(name)
        } else {
            None
        },
    }
}

/// The type literal that a name stands for.
pub fn type_literal_name_for_ident(name: &String, named_type_literals: &Vec<(String, String)>) -> (r: Option<String>)
    ensures
        match spec_type_literal_name_for_ident(name@, named_type_literals@) {
            None => r is None,
            Some(v) => r matches Some(x) && x@ == v,
        },
{
    match assoc_get(named_type_literals, name) {
        Some(lit) => Some(lit),
        None => {
            let hint = parse_type_hint(name.as_str());
            let known = match hint {
                MirValueType::Unknown => false,
                _ => true,
            };
            if known || string_eq_str(name, "type") || string_eq_str(name, "opaque") || string_eq_str(name, "any") {
                Some(name.clone())
            } else {
                None
            }
        },
    }
}

/// Offset of field `k` of a struct: the running size before it, aligned to its type.
pub open spec fn spec_field_offset(fields: Seq<(Seq<char>, Seq<char>)>, k: int, bound: nat) -> nat {
    let acc = spec_fields_layout(fields, k, bound);
    let f = if fields[k].1.len() < bound { spec_layout(fields[k].1) } else { (0nat, 1nat) };
    spec_align_up(acc.0, f.1)
}

/// The offsets of all fields, in order.
fn struct_field_offsets(fields: &Vec<(Vec<char>, Vec<char>)>, Ghost(bound): Ghost<nat>) -> (r: Vec<u64>)
    requires
        forall|k: int| 0 <= k < fields@.len() ==> (#[trigger] fields@[k]).1@.len() < bound,
    ensures
        r@.len() == fields@.len(),
        forall|k: int| 0 <= k < fields@.len() ==> (#[trigger] r@[k]) as nat == spec_field_offset(
            fields@.map_values(|f: (Vec<char>, Vec<char>)| (f.0@, f.1@)),
            k,
            bound,
        ),
{
    let ghost spec_fields = fields@.map_values(|f: (Vec<char>, Vec<char>)| (f.0@, f.1@));
    let mut offsets: Vec<u64> = Vec::new();
    let mut size: u64 = 0;
    let mut k: usize = 0;
    while k < fields.len()
        invariant
            spec_fields == fields@.map_values(|f: (Vec<char>, Vec<char>)| (f.0@, f.1@)),
            forall|j: int| 0 <= j < fields@.len() ==> (#[trigger] fields@[j]).1@.len() < bound,
            k <= fields@.len(),
            offsets@.len() == k,
            size as nat == spec_fields_layout(spec_fields, k as int, bound).0,
            forall|j: int| 0 <= j < k ==> (#[trigger] offsets@[j]) as nat == spec_field_offset(spec_fields, j, bound),
        decreases fields.len() - k,
    {
        let (field_size, field_align) = layout_of(&fields[k].1);
        assert(spec_fields[k as int].1 == fields@[k as int].1@);
        size = align_to_u64(size, field_align);
        offsets.push(size);
        size = size.saturating_add(field_size);
        k = k + 1;
    }
    offsets
}

/// The offset that `$offsetof(T, field)` gives: `field` names a field of the
/// struct descriptor, or is its decimal index.
pub open spec fn spec_offsetof(descriptor: Seq<char>, field_arg: HirExprKind) -> Option<nat> {
    match spec_parse_struct_fields(descriptor) {
        None => None,
        Some(fields) => match field_arg {
            HirExprKind::Ident(field) => match first_field_named(fields, field@) {
                Some(k) => Some(spec_field_offset(fields, k, descriptor.len())),
                None => None,
            },
            HirExprKind::Literal(HirLiteral::Integer(index)) => match spec_parse_unsigned(index@, usize::MAX as nat) {
                Some(k) => if k < fields.len() { Some(spec_field_offset(fields, k as int, descriptor.len())) } else { None },
                None => None,
            },
            _ => None,
        },
    }
}

/// Index of the first field named `name`.
pub open spec fn first_field_named(fields: Seq<(Seq<char>, Seq<char>)>, name: Seq<char>) -> Option<int> {
    if exists|k: int| 0 <= k < fields.len() && (#[trigger] fields[k]).0 == name {
        Some(choose|k: int| 0 <= k < fields.len() && (#[trigger] fields[k]).0 == name && forall|j: int| 0 <= j < k ==> fields[j].0 != name)
    } else {
        None
    }
}

proof fn lemma_first_field_unique(fields: Seq<(Seq<char>, Seq<char>)>, name: Seq<char>, k: int)
    requires
        0 <= k < fields.len(),
        fields[k].0 == name,
        forall|j: int| 0 <= j < k ==> fields[j].0 != name,
    ensures
        first_field_named(fields, name) == Some(k),
{
    assert(exists|k: int| 0 <= k < fields.len() && (#[trigger] fields[k]).0 == name);
    let c = choose|c: int| 0 <= c < fields.len() && (#[trigger] fields[c]).0 == name && forall|j: int| 0 <= j < c ==> fields[j].0 != name;
    if c < k {
        assert(fields[c].0 != name);
    }
    if k < c {
        assert(fields[k].0 != name);
    }
}

/// The offset that `$offsetof(T, field)` gives for a struct descriptor `T`.
pub fn builtin_offsetof_for_type_name(descriptor: &str, field_arg: &HirExpr) -> (r: Option<u64>)
    ensures
        match spec_offsetof(descriptor@, field_arg.kind) {
            None => r is None,
            Some(o) => r == Some(o as u64),
        },
{
    let d = chars_of(descriptor);
    let fields = match parse_struct_fields(&d) {
        None => return None,
        Some(f) => f,
    };
    let ghost fs = spec_parse_struct_fields(d@).unwrap();
    proof {
        assert(fs =~= fields@.map_values(|f: (Vec<char>, Vec<char>)| (f.0@, f.1@)));
        lemma_struct_fields_shorter(d@);
    }
    let offsets = struct_field_offsets(&fields, Ghost(d@.len()));
    match &field_arg.kind {
        HirExprKind::Ident(field) => {
            let f = chars_of_string(field);
            let mut k: usize = 0;
            while k < fields.len()
                invariant
                    fs == fields@.map_values(|f: (Vec<char>, Vec<char>)| (f.0@, f.1@)),
                    d@ == descriptor@,
                    spec_parse_struct_fields(d@) == Some(fs),
                    offsets@.len() == fields@.len(),
                    forall|j: int| 0 <= j < fields@.len() ==> (#[trigger] offsets@[j]) as nat == spec_field_offset(fs, j, d@.len()),
                    field_arg.kind == HirExprKind::Ident(*field),
                    k <= fields@.len(),
                    f@ == field@,
                    forall|j: int| 0 <= j < k ==> fs[j].0 != f@,
                decreases fields.len() - k,
            {
                if crate::text::eq_chars(&fields[k].0, &f) {
                    proof { lemma_first_field_unique(fs, f@, k as int); }
                    return Some(offsets[k]);
                }
                k = k + 1;
            }
            None
        },
        HirExprKind::Literal(HirLiteral::Integer(index)) => {
            let iv = chars_of_string(index);
            match parse_unsigned(&iv, usize::MAX as u64) {
                Some(idx) => {
                    if idx < fields.len() as u64 {
                        Some(offsets[idx as usize])
                    } else {
                        None
                    }
                },
                None => None,
            }
        },
        _ => None,
    }
}

/// The offset that `$offsetof(T, field)` gives, where `T` is a type literal
/// or a name standing for one.
pub fn builtin_offsetof_value(type_arg: &HirExpr, field_arg: &HirExpr, named_type_literals: &Vec<(String, String)>) -> (r: Option<u64>)
    ensures
        match type_arg.kind {
            HirExprKind::TypeLiteral(name) => match spec_offsetof(name@, field_arg.kind) {
                None => r is None,
                Some(o) => r == Some(o as u64),
            },
            HirExprKind::Ident(name) => match spec_type_literal_name_for_ident(name@, named_type_literals@) {
                None => r is None,
                Some(lit) => match spec_offsetof(lit, field_arg.kind) {
                    None => r is None,
                    Some(o) => r == Some(o as u64),
                },
            },
            _ => r is None,
        },
{
    match &type_arg.kind {
        HirExprKind::TypeLiteral(name) => builtin_offsetof_for_type_name(name.as_str(), field_arg),
        HirExprKind::Ident(name) => match type_literal_name_for_ident(name, named_type_literals) {
            Some(lit) => builtin_offsetof_for_type_name(lit.as_str(), field_arg),
            None => None,
        },
        _ => None,
    }
}

/// A character that can start a type identifier.
pub open spec fn spec_is_type_ident_start(c: char) -> bool {
    c == '_' || ('a' <= c && c <= 'z') || ('A' <= c && c <= 'Z')
}

/// A character that can continue a type identifier.
pub open spec fn spec_is_type_ident_continue(c: char) -> bool {
    spec_is_type_ident_start(c) || ('0' <= c && c <= '9')
}

/// Whether `ch` can start a type identifier.
fn is_type_ident_start(ch: char) -> (r: bool)
    ensures
        r == spec_is_type_ident_start(ch),
{
    ch == '_' || ('a' <= ch && ch <= 'z') || ('A' <= ch && ch <= 'Z')
}

/// Whether `ch` can continue a type identifier.
fn is_type_ident_continue(ch: char) -> (r: bool)
    ensures
        r == spec_is_type_ident_continue(ch),
{
    is_type_ident_start(ch) || ('0' <= ch && ch <= '9')
}

/// Number of leading identifier-continuing characters of `s`.
pub open spec fn continue_len(s: Seq<char>) -> nat
    decreases s.len(),
{
    if s.len() > 0 && spec_is_type_ident_continue(s[0]) {
        1 + continue_len(s.drop_first())
    } else {
        0
    }
}

/// The identifier run at the start of `s` is as long as `continue_len` says.
pub proof fn lemma_continue_len(s: Seq<char>)
    ensures
        continue_len(s) <= s.len(),
        forall|k: int| 0 <= k < continue_len(s) ==> spec_is_type_ident_continue(#[trigger] s[k]),
        continue_len(s) < s.len() ==> !spec_is_type_ident_continue(s[continue_len(s) as int]),
    decreases s.len(),
{
    if s.len() > 0 && spec_is_type_ident_continue(s[0]) {
        lemma_continue_len(s.drop_first());
        assert forall|k: int| 0 <= k < continue_len(s) implies spec_is_type_ident_continue(#[trigger] s[k]) by {
            if k > 0 {
                assert(s[k] == s.drop_first()[k - 1]);
            }
        }
    }
}

/// Compile-time locals by value: each name with the value bound to it.
pub open spec fn locals_view(l: Seq<(String, ComptimeValue)>) -> Seq<(Seq<char>, ComptimeValueView)> {
    l.map_values(|p: (String, ComptimeValue)| (p.0@, p.1@))
}

/// The compile-time value bound first to `name` in `locals`.
pub open spec fn local_lookup(locals: Seq<(Seq<char>, ComptimeValueView)>, name: Seq<char>) -> Option<ComptimeValueView>
    decreases locals.len(),
{
    if locals.len() == 0 {
        None
    } else if locals[0].0 == name {
        Some(locals[0].1)
    } else {
        local_lookup(locals.drop_first(), name)
    }
}

/// What an identifier becomes: the type bound to it, or itself.
pub open spec fn ident_replacement(id: Seq<char>, locals: Seq<(Seq<char>, ComptimeValueView)>) -> Seq<char> {
    match local_lookup(locals, id) {
        Some(ComptimeValueView::Type(t)) => t,
        _ => id,
    }
}

/// `s` with every identifier that `locals` binds to a type replaced by that type.
pub open spec fn spec_substitute_type_locals(s: Seq<char>, locals: Seq<(Seq<char>, ComptimeValueView)>) -> Seq<char>
    decreases s.len(),
{
    if s.len() == 0 {
        s
    } else if spec_is_type_ident_start(s[0]) {
        let n = 1 + continue_len(s.drop_first()) as int;
        proof {
            lemma_continue_len(s.drop_first());
        }
        ident_replacement(s.take(n), locals) + spec_substitute_type_locals(s.skip(n), locals)
    } else {
        seq![s[0]] + spec_substitute_type_locals(s.drop_first(), locals)
    }
}

pub(crate) fn local_get<'a>(locals: &'a Vec<(String, ComptimeValue)>, name: &Vec<char>) -> (r: Option<&'a ComptimeValue>)
    ensures
        match local_lookup(locals_view(locals@), name@) {
            None => r is None,
            Some(v) => r matches Some(x) && x@ == v,
        },
{
    let mut i: usize = 0;
    assert(locals_view(locals@).skip(0) =~= locals_view(locals@));
    while i < locals.len()
        invariant
            i <= locals@.len(),
            local_lookup(locals_view(locals@), name@) == local_lookup(locals_view(locals@).skip(i as int), name@),
        decreases locals.len() - i,
    {
        assert(locals_view(locals@).skip(i as int)[0] == locals_view(locals@)[i as int]);
        assert(locals_view(locals@).skip(i as int).drop_first() =~= locals_view(locals@).skip(i + 1));
        let key = chars_of_string(&locals[i].0);
        if crate::text::eq_chars(&key, name) {
            return Some(&locals[i].1);
        }
        i = i + 1;
    }
    None
}

/// Replaces each identifier in a type name that the compile-time locals bind
/// to a type by that type.
pub fn substitute_type_locals(descriptor: &str, locals: &Vec<(String, ComptimeValue)>) -> (r: String)
    ensures
        r@ == spec_substitute_type_locals(descriptor@, locals_view(locals@)),
{
    let v = chars_of(descriptor);
    let mut out = String::new();
    let mut i: usize = 0;
    assert(v@.skip(0) =~= v@);
    while i < v.len()
        invariant
            v@ == descriptor@,
            i <= v@.len(),
            out@ + spec_substitute_type_locals(v@.skip(i as int), locals_view(locals@)) == spec_substitute_type_locals(v@, locals_view(locals@)),
        decreases v.len() - i,
    {
        let ghost rest = v@.skip(i as int);
        let ch = v[i];
        assert(rest[0] == ch);
        if is_type_ident_start(ch) {
            let start = i;
            let mut end = i + 1;
            while end < v.len() && is_type_ident_continue(v[end])
                invariant
                    start < end <= v@.len(),
                    forall|k: int| start < k < end ==> spec_is_type_ident_continue(#[trigger] v@[k]),
                decreases v.len() - end,
            {
                end = end + 1;
            }
            proof {
                let tail = rest.drop_first();
                lemma_continue_len(tail);
                let n = end - start - 1;
                assert forall|k: int| 0 <= k < n implies spec_is_type_ident_continue(#[trigger] tail[k]) by {
                    assert(tail[k] == v@[start + 1 + k]);
                }
                if n < tail.len() {
                    assert(tail[n] == v@[end as int]);
                }
                lemma_continue_len_unique(tail, n);
                assert(rest.take(end - start) =~= v@.subrange(start as int, end as int));
                assert(rest.skip(end - start) =~= v@.skip(end as int));
            }
            let ident = subvec(&v, start, end);
            match local_get(locals, &ident) {
                Some(ComptimeValue::Type(replacement)) => push_string(&mut out, replacement),
                _ => {
                    let s = string_from_chars(&ident);
                    push_string(&mut out, &s);
                },
            }
            proof {
                assert(out@ + spec_substitute_type_locals(v@.skip(end as int), locals_view(locals@)) =~= spec_substitute_type_locals(v@, locals_view(locals@)));
            }
            i = end;
        } else {
            string_push(&mut out, ch);
            proof {
                assert(rest.drop_first() =~= v@.skip(i + 1));
                assert(out@ + spec_substitute_type_locals(v@.skip(i + 1), locals_view(locals@)) =~= spec_substitute_type_locals(v@, locals_view(locals@)));
            }
            i = i + 1;
        }
    }
    proof {
        assert(v@.skip(v@.len() as int).len() == 0);
        assert(out@ + Seq::<char>::empty() =~= out@);
    }
    out
}

pub proof fn lemma_continue_len_unique(s: Seq<char>, n: int)
    requires
        0 <= n <= s.len(),
        forall|k: int| 0 <= k < n ==> spec_is_type_ident_continue(#[trigger] s[k]),
        n < s.len() ==> !spec_is_type_ident_continue(s[n]),
    ensures
        continue_len(s) == n,
    decreases s.len(),
{
    if n > 0 {
        assert(spec_is_type_ident_continue(s[0]));
        assert forall|k: int| 0 <= k < n - 1 implies spec_is_type_ident_continue(#[trigger] s.drop_first()[k]) by {
            assert(s.drop_first()[k] == s[k + 1]);
        }
        lemma_continue_len_unique(s.drop_first(), n - 1);
    }
}

} // verus!
