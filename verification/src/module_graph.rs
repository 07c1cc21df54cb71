//! The module graph: source files grouped into modules by directory and
//! declared module name, in the sorted order of their keys, with a
//! diagnostic for each file that declares no valid module name.

use vstd::prelude::*;
use crate::diagnostics::{Diagnostic, DiagnosticCode, DiagnosticPhase, Severity};
use crate::module_reader::{
    ModuleNameView, line_views, opt_view, read_module_name, read_view, scan_lines, spec_read_error_code,
    spec_read_error_label, spec_read_error_message, spec_requests_std, source_requests_std_import,
    to_resolver_diagnostic,
};
use crate::module_resolver::{
    ModuleId, ModuleKey, comps, copy_strings, join_components, join_path, key_view, relative_directory_of,
    spec_strip_std_prefix, strip_std_prefix,
};
use crate::name_set::{
    lemma_lt_asymmetric, lemma_lt_irreflexive, lemma_lt_total, lemma_lt_transitive, seq_lt, string_less,
};
use crate::text::{chars_of_string, string_eq, contains_seq, push_string, string_push};

verus! {

/// Lexicographic order on paths, component by component.
pub open spec fn comps_lt(a: Seq<Seq<char>>, b: Seq<Seq<char>>) -> bool
    decreases a.len(),
{
    if a.len() == 0 {
        b.len() > 0
    } else if b.len() == 0 {
        false
    } else if a[0] != b[0] {
        seq_lt(a[0], b[0])
    } else {
        comps_lt(a.drop_first(), b.drop_first())
    }
}

/// No path precedes itself.
pub proof fn lemma_comps_lt_irreflexive(a: Seq<Seq<char>>)
    ensures
        !comps_lt(a, a),
    decreases a.len(),
{
    if a.len() > 0 {
        lemma_comps_lt_irreflexive(a.drop_first());
    }
}

/// The path order is transitive.
pub proof fn lemma_comps_lt_transitive(a: Seq<Seq<char>>, b: Seq<Seq<char>>, c: Seq<Seq<char>>)
    requires
        comps_lt(a, b),
        comps_lt(b, c),
    ensures
        comps_lt(a, c),
    decreases a.len(),
{
    if a.len() > 0 && b.len() > 0 && c.len() > 0 {
        if a[0] == b[0] && b[0] == c[0] {
            lemma_comps_lt_transitive(a.drop_first(), b.drop_first(), c.drop_first());
        } else if a[0] != b[0] && b[0] != c[0] {
            lemma_lt_transitive(a[0], b[0], c[0]);
            if a[0] == c[0] {
                lemma_lt_asymmetric(a[0], b[0]);
            }
        } else if a[0] != b[0] {
        } else {
        }
    }
}

/// Any two paths are equal or ordered one way.
pub proof fn lemma_comps_lt_total(a: Seq<Seq<char>>, b: Seq<Seq<char>>)
    ensures
        a == b || comps_lt(a, b) || comps_lt(b, a),
    decreases a.len(),
{
    if a.len() > 0 && b.len() > 0 {
        if a[0] == b[0] {
            lemma_comps_lt_total(a.drop_first(), b.drop_first());
            if a.drop_first() == b.drop_first() {
                assert(a =~= seq![a[0]] + a.drop_first());
                assert(b =~= seq![b[0]] + b.drop_first());
            }
        } else {
            lemma_lt_total(a[0], b[0]);
        }
    } else if a.len() == 0 && b.len() == 0 {
        assert(a =~= b);
    }
}

/// The path order is asymmetric.
pub proof fn lemma_comps_lt_asymmetric(a: Seq<Seq<char>>, b: Seq<Seq<char>>)
    requires
        comps_lt(a, b),
    ensures
        !comps_lt(b, a),
    decreases a.len(),
{
    if a.len() > 0 && b.len() > 0 {
        if a[0] == b[0] {
            lemma_comps_lt_asymmetric(a.drop_first(), b.drop_first());
        } else {
            lemma_lt_asymmetric(a[0], b[0]);
        }
    }
}

/// The order of module keys: by directory, then by name.
pub open spec fn key_lt(a: (Seq<Seq<char>>, Seq<char>), b: (Seq<Seq<char>>, Seq<char>)) -> bool {
    comps_lt(a.0, b.0) || (a.0 == b.0 && seq_lt(a.1, b.1))
}

/// The key order is a strict total order.
pub proof fn lemma_key_lt_order(a: (Seq<Seq<char>>, Seq<char>), b: (Seq<Seq<char>>, Seq<char>), c: (Seq<Seq<char>>, Seq<char>))
    ensures
        !key_lt(a, a),
        key_lt(a, b) && key_lt(b, c) ==> key_lt(a, c),
        key_lt(a, b) ==> !key_lt(b, a),
        a == b || key_lt(a, b) || key_lt(b, a),
{
    lemma_comps_lt_irreflexive(a.0);
    lemma_lt_irreflexive(a.1);
    lemma_comps_lt_total(a.0, b.0);
    lemma_lt_total(a.1, b.1);
    if key_lt(a, b) && key_lt(b, c) {
        if comps_lt(a.0, b.0) && comps_lt(b.0, c.0) {
            lemma_comps_lt_transitive(a.0, b.0, c.0);
        } else if a.0 == b.0 && b.0 == c.0 {
            lemma_lt_transitive(a.1, b.1, c.1);
        }
    }
    if key_lt(a, b) {
        if comps_lt(a.0, b.0) {
            lemma_comps_lt_asymmetric(a.0, b.0);
        } else {
            lemma_lt_asymmetric(a.1, b.1);
            lemma_comps_lt_irreflexive(a.0);
        }
    }
}

/// Whether two paths are equal.
pub fn comps_equal(a: &Vec<String>, b: &Vec<String>) -> (r: bool)
    ensures
        r == (comps(a@) == comps(b@)),
{
    if a.len() != b.len() {
        assert(comps(a@).len() != comps(b@).len());
        return false;
    }
    let mut i: usize = 0;
    while i < a.len()
        invariant
            a@.len() == b@.len(),
            i <= a@.len(),
            forall|k: int| 0 <= k < i ==> (#[trigger] a@[k])@ == b@[k]@,
        decreases a.len() - i,
    {
        if !string_eq(&a[i], &b[i]) {
            assert(comps(a@)[i as int] != comps(b@)[i as int]);
            return false;
        }
        i = i + 1;
    }
    assert(comps(a@) =~= comps(b@));
    true
}

/// Whether path `a` precedes path `b`.
pub fn comps_less(a: &Vec<String>, b: &Vec<String>) -> (r: bool)
    ensures
        r == comps_lt(comps(a@), comps(b@)),
{
    let mut i: usize = 0;
    assert(comps(a@).skip(0) =~= comps(a@));
    assert(comps(b@).skip(0) =~= comps(b@));
    while i < a.len() && i < b.len()
        invariant
            i <= a@.len(),
            i <= b@.len(),
            comps_lt(comps(a@), comps(b@)) == comps_lt(comps(a@).skip(i as int), comps(b@).skip(i as int)),
        decreases a.len() - i,
    {
        assert(comps(a@).skip(i as int)[0] == a@[i as int]@);
        assert(comps(b@).skip(i as int)[0] == b@[i as int]@);
        if !string_eq(&a[i], &b[i]) {
            return string_less(&a[i], &b[i]);
        }
        assert(comps(a@).skip(i as int).drop_first() =~= comps(a@).skip(i + 1));
        assert(comps(b@).skip(i as int).drop_first() =~= comps(b@).skip(i + 1));
        i = i + 1;
    }
    a.len() - i < b.len() - i
}

/// Whether two module keys are equal.
pub fn key_equal(a: &ModuleKey, b: &ModuleKey) -> (r: bool)
    ensures
        r == (key_view(*a) == key_view(*b)),
{
    comps_equal(&a.directory, &b.directory) && string_eq(&a.module_name, &b.module_name)
}

/// Whether key `a` precedes key `b`.
pub fn key_less(a: &ModuleKey, b: &ModuleKey) -> (r: bool)
    ensures
        r == key_lt(key_view(*a), key_view(*b)),
{
    if comps_less(&a.directory, &b.directory) {
        return true;
    }
    comps_equal(&a.directory, &b.directory) && string_less(&a.module_name, &b.module_name)
}

/// A source file as read: its path relative to the project root (or to the
/// `std` collection), the lines read from it, and the error that stopped the
/// reading after those lines, if one did.
#[derive(Debug, Clone)]
pub struct SourceFile {
    pub path: Vec<String>,
    pub lines: Vec<String>,
    pub read_error: Option<String>,
}

/// The mathematical view of a source file: path, lines, read error.
pub open spec fn file_view(f: SourceFile) -> (Seq<Seq<char>>, Seq<Seq<char>>, Option<Seq<char>>) {
    (comps(f.path@), line_views(f.lines@), opt_view(f.read_error))
}

/// The views of a list of source files.
pub open spec fn files_view(s: Seq<SourceFile>) -> Seq<(Seq<Seq<char>>, Seq<Seq<char>>, Option<Seq<char>>)> {
    s.map_values(|f: SourceFile| file_view(f))
}

/// The module name a file declares, or why it has none.
pub open spec fn declared(f: (Seq<Seq<char>>, Seq<Seq<char>>, Option<Seq<char>>)) -> ModuleNameView {
    scan_lines(f.1, 0, false, f.2)
}

/// The files in order with later files whose path was already seen dropped.
pub open spec fn dedupe(s: Seq<(Seq<Seq<char>>, Seq<Seq<char>>, Option<Seq<char>>)>) -> Seq<(Seq<Seq<char>>, Seq<Seq<char>>, Option<Seq<char>>)>
    decreases s.len(),
{
    if s.len() == 0 {
        Seq::empty()
    } else {
        let d = dedupe(s.drop_last());
        if exists|k: int| 0 <= k < d.len() && (#[trigger] d[k]).0 == s.last().0 {
            d
        } else {
            d.push(s.last())
        }
    }
}

/// The directory of a relative path: all components but the last.
pub open spec fn dir_of(p: Seq<Seq<char>>) -> Seq<Seq<char>> {
    if p.len() <= 1 { Seq::empty() } else { p.drop_last() }
}

/// The (key, path) pairs that the files with a module name contribute.
pub open spec fn expected_entries(s: Seq<(Seq<Seq<char>>, Seq<Seq<char>>, Option<Seq<char>>)>) -> Set<((Seq<Seq<char>>, Seq<char>), Seq<Seq<char>>)> {
    Set::new(|e: ((Seq<Seq<char>>, Seq<char>), Seq<Seq<char>>)| exists|k: int| 0 <= k < s.len()
        && (#[trigger] declared(s[k])) == ModuleNameView::Found(e.0.1) && s[k].0 == e.1 && dir_of(s[k].0) == e.0.0)
}

/// A file view.
pub type FileView = (Seq<Seq<char>>, Seq<Seq<char>>, Option<Seq<char>>);

proof fn lemma_dedupe_distinct(s: Seq<FileView>)
    ensures
        forall|i: int, j: int| 0 <= i < j < dedupe(s).len() ==> (#[trigger] dedupe(s)[i]).0 != (#[trigger] dedupe(s)[j]).0,
    decreases s.len(),
{
    if s.len() > 0 {
        lemma_dedupe_distinct(s.drop_last());
        let d = dedupe(s.drop_last());
        if !(exists|k: int| 0 <= k < d.len() && (#[trigger] d[k]).0 == s.last().0) {
            let e = d.push(s.last());
            assert(dedupe(s) == e);
            assert forall|i: int, j: int| 0 <= i < j < e.len() implies (#[trigger] e[i]).0 != (#[trigger] e[j]).0 by {
                if j == d.len() {
                    assert(e[i] == d[i]);
                } else {
                    assert(e[i] == d[i] && e[j] == d[j]);
                }
            }
        }
    }
}

proof fn lemma_expected_diags_contains(r: Seq<FileView>, k: int)
    requires
        0 <= k < r.len(),
        !(declared(r[k]) is Found),
    ensures
        expected_diags(r).contains(expected_diag(r[k])),
    decreases r.len(),
{
    if k == r.len() - 1 {
        assert(expected_diags(r).last() == expected_diag(r[k]));
        assert(expected_diags(r)[expected_diags(r).len() - 1] == expected_diag(r[k]));
    } else {
        lemma_expected_diags_contains(r.drop_last(), k);
        assert(r.drop_last()[k] == r[k]);
        let d = expected_diags(r.drop_last());
        let j = choose|j: int| 0 <= j < d.len() && d[j] == expected_diag(r[k]);
        if !(declared(r.last()) is Found) {
            assert(expected_diags(r)[j] == d[j]);
        }
    }
}

/// Every file that is registered (the first one with its path) lands in
/// exactly one place: a file whose module name is read lands in the group
/// of its directory and that name, and in no other group; a file without
/// one lands in no group and gets its diagnostic.
pub proof fn lemma_each_file_in_one_place(files: Seq<FileView>, k: int)
    requires
        0 <= k < dedupe(files).len(),
    ensures
        ({
            let r = dedupe(files);
            let f = r[k];
            match declared(f) {
                ModuleNameView::Found(name) => expected_entries(r).contains(((dir_of(f.0), name), f.0))
                    && forall|key: (Seq<Seq<char>>, Seq<char>)| #[trigger] expected_entries(r).contains((key, f.0))
                        ==> key == (dir_of(f.0), name),
                _ => (forall|key: (Seq<Seq<char>>, Seq<char>)| !#[trigger] expected_entries(r).contains((key, f.0)))
                    && expected_diags(r).contains(expected_diag(f)),
            }
        }),
{
    let r = dedupe(files);
    let f = r[k];
    lemma_dedupe_distinct(files);
    match declared(f) {
        ModuleNameView::Found(name) => {
            assert(expected_entries(r).contains(((dir_of(f.0), name), f.0)));
            assert forall|key: (Seq<Seq<char>>, Seq<char>)| #[trigger] expected_entries(r).contains((key, f.0))
                implies key == (dir_of(f.0), name) by {
                let j = choose|j: int| 0 <= j < r.len() && (#[trigger] declared(r[j])) == ModuleNameView::Found(key.1)
                    && r[j].0 == f.0 && dir_of(r[j].0) == key.0;
                if j != k {
                    if j < k {
                        assert(r[j].0 != r[k].0);
                    } else {
                        assert(r[k].0 != r[j].0);
                    }
                }
            }
        },
        _ => {
            assert forall|key: (Seq<Seq<char>>, Seq<char>)| !#[trigger] expected_entries(r).contains((key, f.0)) by {
                if expected_entries(r).contains((key, f.0)) {
                    let j = choose|j: int| 0 <= j < r.len() && (#[trigger] declared(r[j])) == ModuleNameView::Found(key.1)
                        && r[j].0 == f.0 && dir_of(r[j].0) == key.0;
                    if j != k {
                        if j < k {
                            assert(r[j].0 != r[k].0);
                        } else {
                            assert(r[k].0 != r[j].0);
                        }
                    }
                }
            }
            lemma_expected_diags_contains(r, k);
        },
    }
}

/// The view of a diagnostic: label file, code, message, label message.
pub open spec fn diag_view(d: Diagnostic) -> (Seq<char>, DiagnosticCode, Seq<char>, Seq<char>) {
    match d.primary_label {
        Some(l) => (l.file@, d.code, d.message@, l.message@),
        None => (Seq::empty(), d.code, d.message@, Seq::empty()),
    }
}

/// The diagnostic of a file without a module name.
pub open spec fn expected_diag(f: (Seq<Seq<char>>, Seq<Seq<char>>, Option<Seq<char>>)) -> (Seq<char>, DiagnosticCode, Seq<char>, Seq<char>) {
    let kind = declared(f);
    (join_components(f.0), spec_read_error_code(kind), spec_read_error_message(kind), spec_read_error_label(kind))
}

/// The diagnostics of the files without a module name, in file order.
pub open spec fn expected_diags(s: Seq<(Seq<Seq<char>>, Seq<Seq<char>>, Option<Seq<char>>)>) -> Seq<(Seq<char>, DiagnosticCode, Seq<char>, Seq<char>)>
    decreases s.len(),
{
    if s.len() == 0 {
        Seq::empty()
    } else if declared(s.last()) is Found {
        expected_diags(s.drop_last())
    } else {
        expected_diags(s.drop_last()).push(expected_diag(s.last()))
    }
}

/// A module-resolution error labelled with a file and no span.
pub open spec fn is_resolver_diagnostic(d: Diagnostic) -> bool {
    &&& d.severity == Severity::Error
    &&& d.phase == DiagnosticPhase::ModuleResolver
    &&& d.primary_label matches Some(l) && l.span is None
}

/// Every diagnostic of the list is a module-resolution error labelled with
/// a file and no span.
pub open spec fn all_resolver_diagnostics(ds: Seq<Diagnostic>) -> bool {
    forall|i: int| 0 <= i < ds.len() ==> is_resolver_diagnostic(#[trigger] ds[i])
}

/// Diagnostics are in the order of their label's file path text.
pub open spec fn diags_sorted(ds: Seq<Diagnostic>) -> bool {
    forall|i: int, j: int| 0 <= i < j < ds.len() ==> !seq_lt(#[trigger] diag_view(ds[j]).0, #[trigger] diag_view(ds[i]).0)
}

/// A group of files: a module key and the paths of its files.
pub type ModuleGroup = (ModuleKey, Vec<Vec<String>>);

/// The paths of a group's files.
pub open spec fn group_files(g: ModuleGroup) -> Seq<Seq<Seq<char>>> {
    g.1@.map_values(|p: Vec<String>| comps(p@))
}

/// Groups are in strictly increasing key order, each group's files in
/// strictly increasing path order, and no group is empty.
pub open spec fn groups_wf(gs: Seq<ModuleGroup>) -> bool {
    &&& forall|i: int, j: int| 0 <= i < j < gs.len() ==> key_lt(key_view(#[trigger] gs[i].0), key_view(#[trigger] gs[j].0))
    &&& forall|i: int| 0 <= i < gs.len() ==> files_sorted(group_files(#[trigger] gs[i]))
    &&& forall|i: int| 0 <= i < gs.len() ==> group_files(#[trigger] gs[i]).len() > 0
}

/// Paths in strictly increasing order.
pub open spec fn files_sorted(fs: Seq<Seq<Seq<char>>>) -> bool {
    forall|i: int, j: int| 0 <= i < j < fs.len() ==> comps_lt(#[trigger] fs[i], #[trigger] fs[j])
}

/// The (key, path) pairs that groups hold.
pub open spec fn group_entries(gs: Seq<ModuleGroup>) -> Set<((Seq<Seq<char>>, Seq<char>), Seq<Seq<char>>)> {
    Set::new(|e: ((Seq<Seq<char>>, Seq<char>), Seq<Seq<char>>)| exists|i: int| 0 <= i < gs.len()
        && key_view(#[trigger] gs[i].0) == e.0 && group_files(gs[i]).contains(e.1))
}

/// Two lists in strictly increasing order of a strict order that hold the
/// same elements are the same list.
proof fn lemma_sorted_same_elements<T>(a: Seq<T>, b: Seq<T>, lt: spec_fn(T, T) -> bool)
    requires
        forall|x: T| !(#[trigger] lt(x, x)),
        forall|x: T, y: T, z: T| #[trigger] lt(x, y) && #[trigger] lt(y, z) ==> lt(x, z),
        forall|i: int, j: int| 0 <= i < j < a.len() ==> lt(#[trigger] a[i], #[trigger] a[j]),
        forall|i: int, j: int| 0 <= i < j < b.len() ==> lt(#[trigger] b[i], #[trigger] b[j]),
        forall|x: T| a.contains(x) == b.contains(x),
    ensures
        a == b,
    decreases a.len(),
{
    if a.len() == 0 {
        if b.len() > 0 {
            assert(b.contains(b[0]));
        }
        assert(a =~= b);
    } else {
        assert(a.contains(a[0]));
        let j = choose|j: int| 0 <= j < b.len() && b[j] == a[0];
        assert(b.contains(b[0]));
        let i = choose|i: int| 0 <= i < a.len() && a[i] == b[0];
        if j > 0 {
            assert(lt(b[0], b[j]));
            if i > 0 {
                assert(lt(a[0], a[i]));
                assert(lt(b[0], b[0]));
            } else {
                assert(lt(b[0], b[0]));
            }
        }
        assert(a[0] == b[0]);
        let a1 = a.drop_first();
        let b1 = b.drop_first();
        assert forall|x: T| a1.contains(x) == b1.contains(x) by {
            if a1.contains(x) {
                let k = choose|k: int| 0 <= k < a1.len() && a1[k] == x;
                assert(lt(a[0], a[k + 1]));
                assert(b.contains(x));
                let m = choose|m: int| 0 <= m < b.len() && b[m] == x;
                if m == 0 {
                    assert(lt(x, x));
                }
                assert(b1[m - 1] == x);
            }
            if b1.contains(x) {
                let k = choose|k: int| 0 <= k < b1.len() && b1[k] == x;
                assert(lt(b[0], b[k + 1]));
                assert(a.contains(x));
                let m = choose|m: int| 0 <= m < a.len() && a[m] == x;
                if m == 0 {
                    assert(lt(x, x));
                }
                assert(a1[m - 1] == x);
            }
        }
        assert forall|i: int, j: int| 0 <= i < j < a1.len() implies lt(#[trigger] a1[i], #[trigger] a1[j]) by {
            assert(lt(a[i + 1], a[j + 1]));
        }
        assert forall|i: int, j: int| 0 <= i < j < b1.len() implies lt(#[trigger] b1[i], #[trigger] b1[j]) by {
            assert(lt(b[i + 1], b[j + 1]));
        }
        lemma_sorted_same_elements(a1, b1, lt);
        assert(a.len() == b.len());
        assert forall|k: int| 0 <= k < a.len() implies a[k] == b[k] by {
            if k > 0 {
                assert(a[k] == a1[k - 1]);
                assert(b[k] == b1[k - 1]);
            }
        }
        assert(a =~= b);
    }
}

/// The keys of a list of groups, in order.
pub open spec fn group_keys(gs: Seq<ModuleGroup>) -> Seq<(Seq<Seq<char>>, Seq<char>)> {
    gs.map_values(|g: ModuleGroup| key_view(g.0))
}

/// A group list is determined by the (key, path) pairs it holds: two lists
/// of groups in key order, each group's paths in order and none empty, that
/// hold the same pairs have the same keys in the same order and the same
/// paths in each group. So the number of groups is the number of distinct
/// keys, and the module id of a key (its position) is fixed by the pairs.
pub proof fn lemma_groups_determined_by_entries(a: Seq<ModuleGroup>, b: Seq<ModuleGroup>)
    requires
        groups_wf(a),
        groups_wf(b),
        group_entries(a) == group_entries(b),
    ensures
        group_keys(a) == group_keys(b),
        a.len() == b.len(),
        forall|i: int| 0 <= i < a.len() ==> group_files(#[trigger] a[i]) == group_files(b[i]),
{
    let klt = |x: (Seq<Seq<char>>, Seq<char>), y: (Seq<Seq<char>>, Seq<char>)| key_lt(x, y);
    let plt = |x: Seq<Seq<char>>, y: Seq<Seq<char>>| comps_lt(x, y);
    assert forall|x: (Seq<Seq<char>>, Seq<char>)| !(#[trigger] klt(x, x)) by {
        lemma_key_lt_order(x, x, x);
    }
    assert forall|x: (Seq<Seq<char>>, Seq<char>), y: (Seq<Seq<char>>, Seq<char>), z: (Seq<Seq<char>>, Seq<char>)|
        #[trigger] klt(x, y) && #[trigger] klt(y, z) implies klt(x, z) by {
        lemma_key_lt_order(x, y, z);
    }
    assert forall|x: Seq<Seq<char>>| !(#[trigger] plt(x, x)) by {
        lemma_comps_lt_irreflexive(x);
    }
    assert forall|x: Seq<Seq<char>>, y: Seq<Seq<char>>, z: Seq<Seq<char>>|
        #[trigger] plt(x, y) && #[trigger] plt(y, z) implies plt(x, z) by {
        lemma_comps_lt_transitive(x, y, z);
    }
    let ka = group_keys(a);
    let kb = group_keys(b);
    assert forall|i: int, j: int| 0 <= i < j < ka.len() implies klt(#[trigger] ka[i], #[trigger] ka[j]) by {
        assert(key_lt(key_view(a[i].0), key_view(a[j].0)));
    }
    assert forall|i: int, j: int| 0 <= i < j < kb.len() implies klt(#[trigger] kb[i], #[trigger] kb[j]) by {
        assert(key_lt(key_view(b[i].0), key_view(b[j].0)));
    }
    assert forall|x: (Seq<Seq<char>>, Seq<char>)| ka.contains(x) == kb.contains(x) by {
        if ka.contains(x) {
            let i = choose|i: int| 0 <= i < ka.len() && ka[i] == x;
            assert(group_files(a[i]).len() > 0);
            let p = group_files(a[i])[0];
            assert(group_files(a[i]).contains(p));
            assert(group_entries(a).contains((x, p)));
            assert(group_entries(b).contains((x, p)));
            let j = choose|j: int| 0 <= j < b.len() && key_view(#[trigger] b[j].0) == x && group_files(b[j]).contains(p);
            assert(kb[j] == x);
        }
        if kb.contains(x) {
            let i = choose|i: int| 0 <= i < kb.len() && kb[i] == x;
            assert(group_files(b[i]).len() > 0);
            let p = group_files(b[i])[0];
            assert(group_files(b[i]).contains(p));
            assert(group_entries(b).contains((x, p)));
            assert(group_entries(a).contains((x, p)));
            let j = choose|j: int| 0 <= j < a.len() && key_view(#[trigger] a[j].0) == x && group_files(a[j]).contains(p);
            assert(ka[j] == x);
        }
    }
    lemma_sorted_same_elements(ka, kb, klt);
    assert(ka.len() == a.len() && kb.len() == b.len());
    assert forall|i: int| 0 <= i < a.len() implies group_files(#[trigger] a[i]) == group_files(b[i]) by {
        let fa = group_files(a[i]);
        let fb = group_files(b[i]);
        assert(ka[i] == kb[i]);
        let k = key_view(a[i].0);
        assert forall|i2: int, j2: int| 0 <= i2 < j2 < fa.len() implies plt(#[trigger] fa[i2], #[trigger] fa[j2]) by {
            assert(files_sorted(group_files(a[i])));
        }
        assert forall|i2: int, j2: int| 0 <= i2 < j2 < fb.len() implies plt(#[trigger] fb[i2], #[trigger] fb[j2]) by {
            assert(files_sorted(group_files(b[i])));
        }
        assert forall|p: Seq<Seq<char>>| fa.contains(p) == fb.contains(p) by {
            if fa.contains(p) {
                assert(group_entries(a).contains((k, p)));
                assert(group_entries(b).contains((k, p)));
                let j = choose|j: int| 0 <= j < b.len() && key_view(#[trigger] b[j].0) == k && group_files(b[j]).contains(p);
                if j != i {
                    assert(kb[j] == k && kb[i] == k);
                    if j < i {
                        assert(klt(kb[j], kb[i]));
                    } else {
                        assert(klt(kb[i], kb[j]));
                    }
                }
            }
            if fb.contains(p) {
                assert(group_entries(b).contains((k, p)));
                assert(group_entries(a).contains((k, p)));
                let j = choose|j: int| 0 <= j < a.len() && key_view(#[trigger] a[j].0) == k && group_files(a[j]).contains(p);
                if j != i {
                    assert(ka[j] == k && ka[i] == k);
                    if j < i {
                        assert(klt(ka[j], ka[i]));
                    } else {
                        assert(klt(ka[i], ka[j]));
                    }
                }
            }
        }
        lemma_sorted_same_elements(fa, fb, plt);
    }
}

/// Inserts `path` into a sorted list of paths, unless it is there.
fn insert_path(files: &mut Vec<Vec<String>>, path: Vec<String>)
    requires
        files_sorted(old(files)@.map_values(|p: Vec<String>| comps(p@))),
    ensures
        files_sorted(final(files)@.map_values(|p: Vec<String>| comps(p@))),
        final(files)@.map_values(|p: Vec<String>| comps(p@)).to_set()
            == old(files)@.map_values(|p: Vec<String>| comps(p@)).to_set().insert(comps(path@)),
{
    let ghost old_v = files@.map_values(|p: Vec<String>| comps(p@));
    let ghost x = comps(path@);
    let mut i: usize = 0;
    while i < files.len()
        invariant
            i <= files@.len(),
            x == comps(path@),
            old_v == files@.map_values(|p: Vec<String>| comps(p@)),
            files_sorted(old_v),
            forall|j: int| 0 <= j < i ==> comps_lt(#[trigger] old_v[j], x),
        ensures
            i <= files@.len(),
            old_v == files@.map_values(|p: Vec<String>| comps(p@)),
            forall|j: int| 0 <= j < i ==> comps_lt(#[trigger] old_v[j], x),
            i < files@.len() ==> !comps_lt(old_v[i as int], x),
        decreases files.len() - i,
    {
        assert(old_v[i as int] == comps(files@[i as int]@));
        if !comps_less(&files[i], &path) {
            break;
        }
        i = i + 1;
    }
    if i < files.len() {
        assert(old_v[i as int] == comps(files@[i as int]@));
    }
    if i < files.len() && comps_equal(&files[i], &path) {
        proof {
            assert(old_v.to_set().insert(x) =~= old_v.to_set()) by {
                assert(old_v[i as int] == x);
            }
        }
        return;
    }
    let ghost pos = i as int;
    proof {
        if pos < old_v.len() {
            lemma_comps_lt_total(old_v[pos], x);
        }
        assert forall|j: int| pos <= j < old_v.len() implies comps_lt(x, #[trigger] old_v[j]) by {
            lemma_comps_lt_total(old_v[pos], x);
            if j > pos {
                lemma_comps_lt_transitive(x, old_v[pos], old_v[j]);
            }
        }
    }
    files.insert(i, path);
    let ghost new_v = files@.map_values(|p: Vec<String>| comps(p@));
    proof {
        assert(new_v =~= old_v.insert(pos, x));
        assert forall|a: int, b: int| 0 <= a < b < new_v.len() implies comps_lt(#[trigger] new_v[a], #[trigger] new_v[b]) by {
            if b < pos {
            } else if b == pos {
            } else if a < pos {
                lemma_comps_lt_transitive(old_v[a], x, old_v[b - 1]);
            } else if a == pos {
            } else {
            }
        }
        assert(new_v.to_set() =~= old_v.to_set().insert(x)) by {
            assert forall|y: Seq<Seq<char>>| new_v.to_set().contains(y) == old_v.to_set().insert(x).contains(y) by {
                if new_v.contains(y) {
                    let k = choose|k: int| 0 <= k < new_v.len() && new_v[k] == y;
                    if k < pos {
                        assert(old_v[k] == y);
                    } else if k > pos {
                        assert(old_v[k - 1] == y);
                    }
                }
                if old_v.contains(y) {
                    let k = choose|k: int| 0 <= k < old_v.len() && old_v[k] == y;
                    if k < pos {
                        assert(new_v[k] == y);
                    } else {
                        assert(new_v[k + 1] == y);
                    }
                }
                if y == x {
                    assert(new_v[pos] == y);
                }
            }
        }
    }
}

/// Adds `path` to the group of `key`, making the group if there is none.
fn insert_into_groups(groups: &mut Vec<ModuleGroup>, key: ModuleKey, path: Vec<String>)
    requires
        groups_wf(old(groups)@),
    ensures
        groups_wf(final(groups)@),
        group_entries(final(groups)@) == group_entries(old(groups)@).insert((key_view(key), comps(path@))),
{
    let ghost old_g = groups@;
    let ghost kv = key_view(key);
    let ghost x = comps(path@);
    let mut i: usize = 0;
    while i < groups.len()
        invariant
            i <= groups@.len(),
            old_g == groups@,
            kv == key_view(key),
            groups_wf(old_g),
            forall|j: int| 0 <= j < i ==> key_lt(key_view(#[trigger] old_g[j].0), kv),
        ensures
            i <= groups@.len(),
            old_g == groups@,
            forall|j: int| 0 <= j < i ==> key_lt(key_view(#[trigger] old_g[j].0), kv),
            i < groups@.len() ==> !key_lt(key_view(old_g[i as int].0), kv),
        decreases groups.len() - i,
    {
        if !key_less(&groups[i].0, &key) {
            break;
        }
        i = i + 1;
    }
    let ghost pos = i as int;
    if i < groups.len() && key_equal(&groups[i].0, &key) {
        let mut g = groups.remove(i);
        let ghost before_files = group_files(g);
        proof {
            assert(g == old_g[pos]);
            assert(before_files.to_set() == g.1@.map_values(|p: Vec<String>| comps(p@)).to_set());
        }
        insert_path(&mut g.1, path);
        groups.insert(i, g);
        proof {
            assert(groups@ =~= old_g.update(pos, g));
            assert(group_files(g).to_set() == before_files.to_set().insert(x));
            assert forall|a: int, b: int| 0 <= a < b < groups@.len() implies key_lt(key_view(#[trigger] groups@[a].0), key_view(#[trigger] groups@[b].0)) by {
                assert(key_view(groups@[a].0) == key_view(old_g[a].0));
                assert(key_view(groups@[b].0) == key_view(old_g[b].0));
            }
            assert forall|a: int| 0 <= a < groups@.len() implies files_sorted(group_files(#[trigger] groups@[a])) by {
                if a != pos {
                    assert(groups@[a] == old_g[a]);
                }
            }
            assert(group_files(g).to_set().contains(x));
            assert(group_files(g).len() > 0);
            assert forall|a: int| 0 <= a < groups@.len() implies group_files(#[trigger] groups@[a]).len() > 0 by {
                if a != pos {
                    assert(groups@[a] == old_g[a]);
                }
            }
            assert forall|e: ((Seq<Seq<char>>, Seq<char>), Seq<Seq<char>>)| group_entries(groups@).contains(e)
                == group_entries(old_g).insert((kv, x)).contains(e) by {
                assert(key_view(old_g[pos].0) == kv);
                assert(key_view(groups@[pos].0) == kv);
                if group_entries(groups@).contains(e) {
                    let k = choose|k: int| 0 <= k < groups@.len() && key_view(#[trigger] groups@[k].0) == e.0
                        && group_files(groups@[k]).contains(e.1);
                    if k == pos {
                        assert(e.0 == kv);
                        assert(group_files(g).to_set().contains(e.1));
                        if e.1 != x {
                            assert(before_files.to_set().contains(e.1));
                            assert(group_files(old_g[pos]).contains(e.1));
                            assert(group_entries(old_g).contains(e));
                        }
                    } else {
                        assert(groups@[k] == old_g[k]);
                        assert(key_view(old_g[k].0) == e.0);
                        assert(group_entries(old_g).contains(e));
                    }
                    assert(group_entries(old_g).insert((kv, x)).contains(e));
                }
                if group_entries(old_g).insert((kv, x)).contains(e) {
                    if e == (kv, x) {
                        assert(group_files(g).to_set().contains(x));
                        assert(group_files(groups@[pos]).contains(x));
                    } else {
                        assert(group_entries(old_g).contains(e));
                        let k = choose|k: int| 0 <= k < old_g.len() && key_view(#[trigger] old_g[k].0) == e.0
                            && group_files(old_g[k]).contains(e.1);
                        if k == pos {
                            assert(before_files.to_set().contains(e.1));
                            assert(group_files(g).to_set().contains(e.1));
                            assert(group_files(groups@[pos]).contains(e.1));
                        } else {
                            assert(groups@[k] == old_g[k]);
                            assert(key_view(groups@[k].0) == e.0);
                        }
                    }
                    assert(group_entries(groups@).contains(e));
                }
            }
            assert(group_entries(groups@) =~= group_entries(old_g).insert((kv, x)));
        }
        return;
    }
    proof {
        if pos < old_g.len() {
            lemma_key_lt_order(key_view(old_g[pos].0), kv, kv);
        }
        assert forall|j: int| pos <= j < old_g.len() implies key_lt(kv, key_view(#[trigger] old_g[j].0)) by {
            lemma_key_lt_order(key_view(old_g[pos].0), kv, kv);
            if j > pos {
                lemma_key_lt_order(kv, key_view(old_g[pos].0), key_view(old_g[j].0));
            }
        }
    }
    let mut files: Vec<Vec<String>> = Vec::new();
    files.push(path);
    let g: ModuleGroup = (key, files);
    proof {
        assert(group_files(g) =~= seq![x]);
    }
    groups.insert(i, g);
    proof {
        let new_g = groups@;
        assert(new_g =~= old_g.insert(pos, g));
        assert forall|a: int, b: int| 0 <= a < b < new_g.len() implies key_lt(key_view(#[trigger] new_g[a].0), key_view(#[trigger] new_g[b].0)) by {
            if b < pos {
            } else if b == pos {
            } else if a < pos {
                lemma_key_lt_order(key_view(old_g[a].0), kv, key_view(old_g[b - 1].0));
            } else if a == pos {
            } else {
            }
        }
        assert forall|a: int| 0 <= a < new_g.len() implies files_sorted(group_files(#[trigger] new_g[a])) by {
            if a < pos {
                assert(new_g[a] == old_g[a]);
            } else if a > pos {
                assert(new_g[a] == old_g[a - 1]);
            }
        }
        assert forall|e: ((Seq<Seq<char>>, Seq<char>), Seq<Seq<char>>)| group_entries(new_g).contains(e)
            == group_entries(old_g).insert((kv, x)).contains(e) by {
            if group_entries(new_g).contains(e) {
                let k = choose|k: int| 0 <= k < new_g.len() && key_view(#[trigger] new_g[k].0) == e.0
                    && group_files(new_g[k]).contains(e.1);
                if k < pos {
                    assert(new_g[k] == old_g[k]);
                } else if k > pos {
                    assert(new_g[k] == old_g[k - 1]);
                } else {
                    assert(group_files(g)[0] == x);
                }
            }
            if group_entries(old_g).contains(e) {
                let k = choose|k: int| 0 <= k < old_g.len() && key_view(#[trigger] old_g[k].0) == e.0
                    && group_files(old_g[k]).contains(e.1);
                if k < pos {
                    assert(new_g[k] == old_g[k]);
                } else {
                    assert(new_g[k + 1] == old_g[k]);
                }
            }
            if e == (kv, x) {
                assert(group_files(new_g[pos])[0] == x);
                assert(key_view(new_g[pos].0) == kv);
            }
        }
        assert(group_entries(new_g) =~= group_entries(old_g).insert((kv, x)));
    }
}

/// Inserting an element adds it to the multiset.
proof fn lemma_insert_to_multiset<A>(s: Seq<A>, pos: int, a: A)
    requires
        0 <= pos <= s.len(),
    ensures
        s.insert(pos, a).to_multiset() == s.to_multiset().insert(a),
{
    let t = s.insert(pos, a);
    assert(t.remove(pos) =~= s);
    broadcast use vstd::seq_lib::group_to_multiset_ensures;
    assert(t[pos] == a);
    assert(t.remove(pos).to_multiset() == t.to_multiset().remove(a));
    assert(t.contains(a));
    assert(t.to_multiset().count(a) > 0);
    assert(t.to_multiset() =~= t.to_multiset().remove(a).insert(a));
}

/// The views of a list of diagnostics.
pub open spec fn diag_views(ds: Seq<Diagnostic>) -> Seq<(Seq<char>, DiagnosticCode, Seq<char>, Seq<char>)> {
    ds.map_values(|d: Diagnostic| diag_view(d))
}

/// The file a diagnostic's primary label names, empty without a label.
fn label_file(d: &Diagnostic) -> (r: String)
    ensures
        r@ == diag_view(*d).0,
{
    match &d.primary_label {
        Some(l) => l.file.clone(),
        None => String::new(),
    }
}

/// Inserts a diagnostic after those whose file does not come after its own.
fn insert_diagnostic(diags: &mut Vec<Diagnostic>, d: Diagnostic)
    requires
        diags_sorted(old(diags)@),
        all_resolver_diagnostics(old(diags)@),
        is_resolver_diagnostic(d),
    ensures
        diags_sorted(final(diags)@),
        all_resolver_diagnostics(final(diags)@),
        diag_views(final(diags)@).to_multiset() == diag_views(old(diags)@).to_multiset().insert(diag_view(d)),
{
    let ghost old_d = diags@;
    let file = label_file(&d);
    let mut i: usize = 0;
    while i < diags.len()
        invariant
            i <= diags@.len(),
            old_d == diags@,
            file@ == diag_view(d).0,
            diags_sorted(old_d),
            forall|j: int| 0 <= j < i ==> !seq_lt(file@, #[trigger] diag_view(old_d[j]).0),
        ensures
            i <= diags@.len(),
            old_d == diags@,
            forall|j: int| 0 <= j < i ==> !seq_lt(file@, #[trigger] diag_view(old_d[j]).0),
            i < diags@.len() ==> seq_lt(file@, diag_view(old_d[i as int]).0),
        decreases diags.len() - i,
    {
        let other = label_file(&diags[i]);
        if string_less(&file, &other) {
            break;
        }
        i = i + 1;
    }
    let ghost pos = i as int;
    diags.insert(i, d);
    proof {
        let new_d = diags@;
        assert(new_d =~= old_d.insert(pos, d));
        assert forall|a: int, b: int| 0 <= a < b < new_d.len() implies !seq_lt(#[trigger] diag_view(new_d[b]).0, #[trigger] diag_view(new_d[a]).0) by {
            if b < pos {
            } else if b == pos {
            } else if a < pos {
                assert(new_d[b] == old_d[b - 1]);
            } else if a == pos {
                assert(new_d[b] == old_d[b - 1]);
                let vb = diag_view(old_d[b - 1]).0;
                let vp = diag_view(old_d[pos]).0;
                if seq_lt(vb, file@) {
                    if b - 1 == pos {
                        lemma_lt_asymmetric(file@, vp);
                    } else {
                        lemma_lt_transitive(vb, file@, vp);
                    }
                }
            } else {
                assert(new_d[a] == old_d[a - 1]);
                assert(new_d[b] == old_d[b - 1]);
            }
        }
        assert forall|a: int| 0 <= a < new_d.len() implies is_resolver_diagnostic(#[trigger] new_d[a]) by {
            if a < pos {
                assert(new_d[a] == old_d[a]);
            } else if a > pos {
                assert(new_d[a] == old_d[a - 1]);
            }
        }
        assert(diag_views(new_d) =~= diag_views(old_d).insert(pos, diag_view(d)));
        lemma_insert_to_multiset(diag_views(old_d), pos, diag_view(d));
    }
}

/// The view of a file of the `std` collection: its path gets `std` in front.
pub open spec fn std_file_view(f: SourceFile) -> (Seq<Seq<char>>, Seq<Seq<char>>, Option<Seq<char>>) {
    (seq!["std"@] + comps(f.path@), line_views(f.lines@), opt_view(f.read_error))
}

/// A file asks for the `std` collection: it was read whole and some line
/// holds `use "std/` (a line break never falls inside that text, so this is
/// the same as the file's text holding it).
pub open spec fn file_requests_std(f: (Seq<Seq<char>>, Seq<Seq<char>>, Option<Seq<char>>)) -> bool {
    f.2 is None && exists|k: int| 0 <= k < f.1.len() && spec_requests_std(#[trigger] f.1[k])
}

/// Some project file asks for the `std` collection.
pub open spec fn project_requests_std(files: Seq<SourceFile>) -> bool {
    exists|k: int| 0 <= k < files.len() && file_requests_std(file_view(#[trigger] files[k]))
}

/// The files a graph is built from, in registration order: the project's,
/// then, when the project asks for it, the `std` collection's.
pub open spec fn graph_inputs(project: Seq<SourceFile>, std: Seq<SourceFile>) -> Seq<(Seq<Seq<char>>, Seq<Seq<char>>, Option<Seq<char>>)> {
    files_view(project) + if project_requests_std(project) {
        std.map_values(|f: SourceFile| std_file_view(f))
    } else {
        Seq::empty()
    }
}

/// The paths of a list of file views.
pub open spec fn paths_of(r: Seq<(Seq<Seq<char>>, Seq<Seq<char>>, Option<Seq<char>>)>) -> Seq<Seq<Seq<char>>> {
    r.map_values(|f: (Seq<Seq<char>>, Seq<Seq<char>>, Option<Seq<char>>)| f.0)
}

/// The registration state after the files `r` (already without repeated
/// paths) were registered.
pub open spec fn registered_state(
    r: Seq<(Seq<Seq<char>>, Seq<Seq<char>>, Option<Seq<char>>)>,
    seen: Seq<Vec<String>>,
    groups: Seq<ModuleGroup>,
    diags: Seq<Diagnostic>,
) -> bool {
    &&& seen.map_values(|p: Vec<String>| comps(p@)) == paths_of(r)
    &&& groups_wf(groups)
    &&& group_entries(groups) == expected_entries(r)
    &&& diags_sorted(diags)
    &&& all_resolver_diagnostics(diags)
    &&& diag_views(diags).to_multiset() == expected_diags(r).to_multiset()
}

/// Whether `path` is among the seen paths.
fn seen_contains(seen: &Vec<Vec<String>>, path: &Vec<String>) -> (r: bool)
    ensures
        r == seen@.map_values(|p: Vec<String>| comps(p@)).contains(comps(path@)),
{
    let ghost sv = seen@.map_values(|p: Vec<String>| comps(p@));
    let mut i: usize = 0;
    while i < seen.len()
        invariant
            i <= seen@.len(),
            sv == seen@.map_values(|p: Vec<String>| comps(p@)),
            forall|j: int| 0 <= j < i ==> #[trigger] sv[j] != comps(path@),
        decreases seen.len() - i,
    {
        assert(sv[i as int] == comps(seen@[i as int]@));
        if comps_equal(&seen[i], path) {
            assert(sv.contains(comps(path@)));
            return true;
        }
        i = i + 1;
    }
    false
}

/// Registers one file under its logical path: a file whose path was seen
/// before is skipped; otherwise its module name puts it in a group, or its
/// failure becomes a diagnostic.
fn register_module_file(
    logical_file_path: Vec<String>,
    file: &SourceFile,
    groups: &mut Vec<ModuleGroup>,
    diagnostics: &mut Vec<Diagnostic>,
    seen_files: &mut Vec<Vec<String>>,
    Ghost(r): Ghost<Seq<(Seq<Seq<char>>, Seq<Seq<char>>, Option<Seq<char>>)>>,
)
    requires
        registered_state(r, old(seen_files)@, old(groups)@, old(diagnostics)@),
    ensures
        ({
            let f = (comps(logical_file_path@), line_views(file.lines@), opt_view(file.read_error));
            let next = if exists|k: int| 0 <= k < r.len() && (#[trigger] r[k]).0 == f.0 { r } else { r.push(f) };
            registered_state(next, final(seen_files)@, final(groups)@, final(diagnostics)@)
        }),
{
    let ghost f = (comps(logical_file_path@), line_views(file.lines@), opt_view(file.read_error));
    if seen_contains(seen_files, &logical_file_path) {
        proof {
            let k = choose|k: int| 0 <= k < paths_of(r).len() && paths_of(r)[k] == f.0;
            assert(r[k].0 == f.0);
        }
        return;
    }
    proof {
        if exists|k: int| 0 <= k < r.len() && (#[trigger] r[k]).0 == f.0 {
            let k = choose|k: int| 0 <= k < r.len() && (#[trigger] r[k]).0 == f.0;
            assert(paths_of(r)[k] == f.0);
        }
    }
    let ghost next = r.push(f);
    let ghost old_seen = seen_files@;
    let copy = copy_strings(&logical_file_path);
    seen_files.push(copy);
    proof {
        assert(seen_files@ =~= old_seen.push(copy));
        assert(old_seen.push(copy).map_values(|p: Vec<String>| comps(p@))
            =~= old_seen.map_values(|p: Vec<String>| comps(p@)).push(comps(copy@)));
        assert(paths_of(next) =~= paths_of(r).push(f.0));
    }
    assert(seen_files@.map_values(|p: Vec<String>| comps(p@)) =~= paths_of(next));
    let name = read_module_name(&file.lines, &file.read_error);
    proof {
        assert(next.drop_last() =~= r);
        assert(next.last() == f);
    }
    match name {
        Ok(module_name) => {
            let directory = relative_directory_of(&logical_file_path);
            let key = ModuleKey { directory, module_name };
            assert(comps(key.directory@) =~= dir_of(f.0));
            let ghost kv = key_view(key);
            insert_into_groups(groups, key, logical_file_path);
            proof {
                assert(declared(f) == ModuleNameView::Found(kv.1));
                assert(group_entries(groups@) =~= expected_entries(next)) by {
                    assert forall|e: ((Seq<Seq<char>>, Seq<char>), Seq<Seq<char>>)| expected_entries(next).contains(e)
                        == expected_entries(r).insert((kv, f.0)).contains(e) by {
                        if expected_entries(next).contains(e) {
                            let k = choose|k: int| 0 <= k < next.len()
                                && (#[trigger] declared(next[k])) == ModuleNameView::Found(e.0.1) && next[k].0 == e.1
                                && dir_of(next[k].0) == e.0.0;
                            if k < r.len() {
                                assert(next[k] == r[k]);
                                assert(expected_entries(r).contains(e));
                            }
                        }
                        if expected_entries(r).contains(e) {
                            let k = choose|k: int| 0 <= k < r.len()
                                && (#[trigger] declared(r[k])) == ModuleNameView::Found(e.0.1) && r[k].0 == e.1
                                && dir_of(r[k].0) == e.0.0;
                            assert(next[k] == r[k]);
                        }
                        if e == (kv, f.0) {
                            assert(next[r.len() as int] == f);
                        }
                    }
                }
                assert(expected_diags(next) == expected_diags(r));
            }
        },
        Err(kind) => {
            let text = join_path(&logical_file_path);
            let d = to_resolver_diagnostic(text, kind);
            insert_diagnostic(diagnostics, d);
            proof {
                assert(diag_view(d) == expected_diag(f));
                assert(expected_diags(next) == expected_diags(r).push(expected_diag(f)));
                broadcast use vstd::seq_lib::group_to_multiset_ensures;
                assert(expected_diags(r).push(expected_diag(f)).to_multiset()
                    == expected_diags(r).to_multiset().insert(expected_diag(f)));
                assert(expected_entries(next) =~= expected_entries(r)) by {
                    assert forall|e: ((Seq<Seq<char>>, Seq<char>), Seq<Seq<char>>)| expected_entries(next).contains(e)
                        implies expected_entries(r).contains(e) by {
                        let k = choose|k: int| 0 <= k < next.len()
                            && (#[trigger] declared(next[k])) == ModuleNameView::Found(e.0.1) && next[k].0 == e.1
                            && dir_of(next[k].0) == e.0.0;
                        if k < r.len() {
                            assert(next[k] == r[k]);
                        }
                    }
                    assert forall|e: ((Seq<Seq<char>>, Seq<char>), Seq<Seq<char>>)| expected_entries(r).contains(e)
                        implies expected_entries(next).contains(e) by {
                        let k = choose|k: int| 0 <= k < r.len()
                            && (#[trigger] declared(r[k])) == ModuleNameView::Found(e.0.1) && r[k].0 == e.1
                            && dir_of(r[k].0) == e.0.0;
                        assert(next[k] == r[k]);
                    }
                }
            }
        },
    }
}

/// Whether some project file asks for the `std` collection.
pub fn project_requests_std_modules(project_files: &Vec<SourceFile>) -> (r: bool)
    ensures
        r == project_requests_std(project_files@),
{
    let mut i: usize = 0;
    while i < project_files.len()
        invariant
            i <= project_files@.len(),
            forall|k: int| 0 <= k < i ==> !file_requests_std(file_view(#[trigger] project_files@[k])),
        decreases project_files.len() - i,
    {
        let f = &project_files[i];
        let ghost fv = file_view(*f);
        if f.read_error.is_none() {
            let mut j: usize = 0;
            while j < f.lines.len()
                invariant
                    j <= f.lines@.len(),
                    i < project_files@.len(),
                    *f == project_files@[i as int],
                    fv == file_view(*f),
                    fv.2 is None,
                    forall|k: int| 0 <= k < j ==> !spec_requests_std(#[trigger] fv.1[k]),
                decreases f.lines.len() - j,
            {
                assert(fv.1[j as int] == f.lines@[j as int]@);
                if source_requests_std_import(f.lines[j].as_str()) {
                    assert(spec_requests_std(fv.1[j as int]));
                    assert(file_requests_std(fv));
                    assert(file_requests_std(file_view(project_files@[i as int])));
                    return true;
                }
                j = j + 1;
            }
        }
        i = i + 1;
    }
    false
}

/// A module of the graph: its id, key and the paths of its files.
#[derive(Debug)]
pub struct ResolvedModule {
    pub id: ModuleId,
    pub key: ModuleKey,
    pub files: Vec<Vec<String>>,
}

/// The modules of a project: the groups of files by key in sorted key
/// order, the diagnostics of files without a module name, the modules with
/// their ids (an id is the position of the key in that order), and the id
/// of each key.
#[derive(Debug)]
pub struct ModuleGraph {
    pub root_dir: String,
    pub groups: Vec<ModuleGroup>,
    pub diagnostics: Vec<Diagnostic>,
    pub modules: Vec<ResolvedModule>,
    pub key_to_id: Vec<(ModuleKey, ModuleId)>,
}

/// The modules and id table agree with the groups: module `i` has id `i`
/// and the key and files of group `i`, and so does entry `i` of the table.
pub open spec fn graph_consistent(g: ModuleGraph) -> bool {
    &&& g.modules@.len() == g.groups@.len()
    &&& g.key_to_id@.len() == g.groups@.len()
    &&& forall|i: int| 0 <= i < g.groups@.len() ==> {
        &&& (#[trigger] g.modules@[i]).id == ModuleId(i as usize)
        &&& key_view(g.modules@[i].key) == key_view(g.groups@[i].0)
        &&& g.modules@[i].files@.map_values(|p: Vec<String>| comps(p@)) == group_files(g.groups@[i])
        &&& key_view(g.key_to_id@[i].0) == key_view(g.groups@[i].0)
        &&& g.key_to_id@[i].1 == ModuleId(i as usize)
    }
}

/// A copy of a list of paths.
fn copy_paths(v: &Vec<Vec<String>>) -> (r: Vec<Vec<String>>)
    ensures
        r@.map_values(|p: Vec<String>| comps(p@)) == v@.map_values(|p: Vec<String>| comps(p@)),
{
    let mut out: Vec<Vec<String>> = Vec::new();
    let mut i: usize = 0;
    while i < v.len()
        invariant
            i <= v@.len(),
            out@.len() == i,
            forall|k: int| 0 <= k < i ==> (#[trigger] out@[k])@ == v@[k]@,
        decreases v.len() - i,
    {
        out.push(copy_strings(&v[i]));
        i = i + 1;
    }
    assert(out@.map_values(|p: Vec<String>| comps(p@)) =~= v@.map_values(|p: Vec<String>| comps(p@)));
    out
}

/// Groups the files of a project into modules. The project's files come
/// first; when one of them imports from `std`, the files of the `std`
/// collection follow, under paths that start with `std`. A file whose path
/// was already registered is skipped. Each file that declares a valid module
/// name joins the group of its directory and name; each other file gives a
/// diagnostic. Groups come in sorted key order and hold their files in
/// sorted path order; diagnostics come in the order of their file paths.
pub fn resolve_module_graph(root_dir: String, project_files: &Vec<SourceFile>, std_files: &Vec<SourceFile>) -> (g: ModuleGraph)
    ensures
        g.root_dir == root_dir,
        groups_wf(g.groups@),
        group_entries(g.groups@) == expected_entries(dedupe(graph_inputs(project_files@, std_files@))),
        diags_sorted(g.diagnostics@),
        all_resolver_diagnostics(g.diagnostics@),
        diag_views(g.diagnostics@).to_multiset() == expected_diags(dedupe(graph_inputs(project_files@, std_files@))).to_multiset(),
        graph_consistent(g),
{
    let mut groups: Vec<ModuleGroup> = Vec::new();
    let mut diagnostics: Vec<Diagnostic> = Vec::new();
    let mut seen_files: Vec<Vec<String>> = Vec::new();
    let ghost pv = files_view(project_files@);
    proof {
        assert(pv.take(0) =~= Seq::empty());
        assert(group_entries(groups@) =~= expected_entries(dedupe(pv.take(0))));
        assert(diag_views(diagnostics@) =~= Seq::empty());
        assert(seen_files@.map_values(|p: Vec<String>| comps(p@)) =~= paths_of(dedupe(pv.take(0))));
    }
    let mut i: usize = 0;
    while i < project_files.len()
        invariant
            i <= project_files@.len(),
            pv == files_view(project_files@),
            registered_state(dedupe(pv.take(i as int)), seen_files@, groups@, diagnostics@),
        decreases project_files.len() - i,
    {
        let f = &project_files[i];
        proof {
            assert(pv.take(i + 1).drop_last() =~= pv.take(i as int));
            assert(pv.take(i + 1).last() == file_view(*f));
        }
        register_module_file(copy_strings(&f.path), f, &mut groups, &mut diagnostics, &mut seen_files,
            Ghost(dedupe(pv.take(i as int))));
        i = i + 1;
    }
    assert(pv.take(pv.len() as int) =~= pv);
    let requests = project_requests_std_modules(project_files);
    let ghost inputs = graph_inputs(project_files@, std_files@);
    if requests {
        let ghost sv = std_files@.map_values(|f: SourceFile| std_file_view(f));
        assert(inputs == pv + sv);
        let mut j: usize = 0;
        assert(pv + sv.take(0) =~= pv);
        while j < std_files.len()
            invariant
                j <= std_files@.len(),
                sv == std_files@.map_values(|f: SourceFile| std_file_view(f)),
                registered_state(dedupe(pv + sv.take(j as int)), seen_files@, groups@, diagnostics@),
            decreases std_files.len() - j,
        {
            let f = &std_files[j];
            let mut logical: Vec<String> = Vec::new();
            logical.push(crate::text::string_from_str("std"));
            let rest = copy_strings(&f.path);
            let mut k: usize = 0;
            while k < rest.len()
                invariant
                    k <= rest@.len(),
                    rest@ == f.path@,
                    logical@.len() == k + 1,
                    logical@[0]@ == "std"@,
                    forall|m: int| 0 <= m < k ==> (#[trigger] logical@[m + 1])@ == rest@[m]@,
                decreases rest.len() - k,
            {
                logical.push(rest[k].clone());
                k = k + 1;
            }
            proof {
                assert forall|m: int| 1 <= m < logical@.len() implies logical@[m]@ == f.path@[m - 1]@ by {
                    assert(logical@[(m - 1) + 1]@ == rest@[m - 1]@);
                }
                assert(comps(logical@) =~= seq!["std"@] + comps(f.path@));
                assert((pv + sv.take(j + 1)).drop_last() =~= pv + sv.take(j as int));
                assert((pv + sv.take(j + 1)).last() == std_file_view(*f));
            }
            register_module_file(logical, f, &mut groups, &mut diagnostics, &mut seen_files,
                Ghost(dedupe(pv + sv.take(j as int))));
            j = j + 1;
        }
        assert(sv.take(sv.len() as int) =~= sv);
    } else {
        assert(inputs =~= pv);
    }
    let mut modules: Vec<ResolvedModule> = Vec::new();
    let mut key_to_id: Vec<(ModuleKey, ModuleId)> = Vec::new();
    let mut index: usize = 0;
    while index < groups.len()
        invariant
            index <= groups@.len(),
            modules@.len() == index,
            key_to_id@.len() == index,
            forall|m: int| 0 <= m < index ==> {
                &&& (#[trigger] modules@[m]).id == ModuleId(m as usize)
                &&& key_view(modules@[m].key) == key_view(groups@[m].0)
                &&& modules@[m].files@.map_values(|p: Vec<String>| comps(p@)) == group_files(groups@[m])
                &&& key_view(key_to_id@[m].0) == key_view(groups@[m].0)
                &&& key_to_id@[m].1 == ModuleId(m as usize)
            },
        decreases groups.len() - index,
    {
        let id = ModuleId(index);
        key_to_id.push((groups[index].0.duplicate(), id));
        modules.push(ResolvedModule { id, key: groups[index].0.duplicate(), files: copy_paths(&groups[index].1) });
        index = index + 1;
    }
    ModuleGraph { root_dir, groups, diagnostics, modules, key_to_id }
}

/// The groups of a project's modules, as `resolve_module_graph` makes them:
/// both are in key order with no empty group and hold the same (key, path)
/// pairs, which `lemma_groups_determined_by_entries` shows fix the list.
pub fn resolve_modules(root_dir: String, project_files: &Vec<SourceFile>, std_files: &Vec<SourceFile>) -> (r: Vec<ModuleGroup>)
    ensures
        groups_wf(r@),
        group_entries(r@) == expected_entries(dedupe(graph_inputs(project_files@, std_files@))),
{
    let graph = resolve_module_graph(root_dir, project_files, std_files);
    graph.groups
}

/// On the same files, `resolve_modules` gives the groups of the graph that
/// `resolve_module_graph` builds: the same keys, in the same order, each
/// with the same files.
pub proof fn lemma_resolve_modules_gives_the_graph_groups(project: Seq<SourceFile>, std: Seq<SourceFile>,
    r: Seq<ModuleGroup>, g: ModuleGraph)
    requires
        groups_wf(r),
        group_entries(r) == expected_entries(dedupe(graph_inputs(project, std))),
        groups_wf(g.groups@),
        group_entries(g.groups@) == expected_entries(dedupe(graph_inputs(project, std))),
    ensures
        group_keys(r) == group_keys(g.groups@),
        r.len() == g.groups@.len(),
        forall|i: int| 0 <= i < r.len() ==> group_files(#[trigger] r[i]) == group_files(g.groups@[i]),
{
    lemma_groups_determined_by_entries(r, g.groups@);
}

impl ModuleGraph {
    /// The id of the module with key `key`: the id of the first table entry
    /// with that key.
    pub fn module_id(&self, key: &ModuleKey) -> (r: Option<ModuleId>)
        ensures
            match r {
                Some(id) => exists|k: int| 0 <= k < self.key_to_id@.len()
                    && key_view(#[trigger] self.key_to_id@[k].0) == key_view(*key) && self.key_to_id@[k].1 == id
                    && forall|j: int| 0 <= j < k ==> key_view(#[trigger] self.key_to_id@[j].0) != key_view(*key),
                None => forall|j: int| 0 <= j < self.key_to_id@.len() ==> key_view(#[trigger] self.key_to_id@[j].0) != key_view(*key),
            },
    {
        let mut i: usize = 0;
        while i < self.key_to_id.len()
            invariant
                i <= self.key_to_id@.len(),
                forall|j: int| 0 <= j < i ==> key_view(#[trigger] self.key_to_id@[j].0) != key_view(*key),
            decreases self.key_to_id.len() - i,
        {
            if key_equal(&self.key_to_id[i].0, key) {
                return Some(self.key_to_id[i].1);
            }
            i = i + 1;
        }
        None
    }

    /// The module with id `id`, if there is one.
    pub fn module(&self, id: ModuleId) -> (r: Option<&ResolvedModule>)
        ensures
            match r {
                Some(m) => id.0 < self.modules@.len() && *m == self.modules@[id.0 as int],
                None => id.0 >= self.modules@.len(),
            },
    {
        if id.0 < self.modules.len() {
            Some(&self.modules[id.0])
        } else {
            None
        }
    }
}

/// Module ids follow the sorted order of keys: in a graph whose groups are
/// in strictly increasing key order and whose id table agrees with them, the
/// first table entry for the key of group `i` is entry `i`, holding id `i`,
/// so `module_id` gives `ModuleId(i)` for that key.
pub proof fn lemma_module_ids_follow_key_order(g: ModuleGraph, i: int)
    requires
        groups_wf(g.groups@),
        graph_consistent(g),
        0 <= i < g.groups@.len(),
    ensures
        key_view(g.key_to_id@[i].0) == key_view(g.groups@[i].0),
        g.key_to_id@[i].1 == ModuleId(i as usize),
        forall|j: int| 0 <= j < i ==> key_view(#[trigger] g.key_to_id@[j].0) != key_view(g.groups@[i].0),
{
    assert(g.modules@[i].id == ModuleId(i as usize));
    assert forall|j: int| 0 <= j < i implies key_view(#[trigger] g.key_to_id@[j].0) != key_view(g.groups@[i].0) by {
        assert(g.modules@[j].id == ModuleId(j as usize));
        assert(key_view(g.key_to_id@[j].0) == key_view(g.groups@[j].0));
        assert(key_lt(key_view(g.groups@[j].0), key_view(g.groups@[i].0)));
        lemma_key_lt_order(key_view(g.groups@[j].0), key_view(g.groups@[i].0), key_view(g.groups@[i].0));
    }
}

/// `base` joined with a relative path: a `/` between them unless `base`
/// already ends with one.
pub open spec fn spec_join_under(base: Seq<char>, rel: Seq<char>) -> Seq<char> {
    if base.len() > 0 && base.last() == '/' { base + rel } else { base + seq!['/'] + rel }
}

/// `base` joined with a relative path.
fn join_under(base: &String, rel: &String) -> (r: String)
    ensures
        r@ == spec_join_under(base@, rel@),
{
    let mut out = base.clone();
    let chars = chars_of_string(base);
    if !(chars.len() > 0 && chars[chars.len() - 1] == '/') {
        string_push(&mut out, '/');
    }
    push_string(&mut out, rel);
    out
}

/// Where a logical file path of the graph can be found: below the project
/// root, and, for a path inside the `std` collection, below the `std` root
/// when one is configured.
pub fn graph_file_candidates(graph: &ModuleGraph, logical_file_path: &Vec<String>, std_root: Option<&String>) -> (r: (String, Option<String>))
    ensures
        r.0@ == spec_join_under(graph.root_dir@, join_components(comps(logical_file_path@))),
        match (spec_strip_std_prefix(logical_file_path@), std_root) {
            (Some(rest), Some(root)) => r.1 matches Some(c) && c@ == spec_join_under(root@, join_components(comps(rest))),
            _ => r.1 is None,
        },
{
    let rel = join_path(logical_file_path);
    let project_candidate = join_under(&graph.root_dir, &rel);
    let std_candidate = match (strip_std_prefix(logical_file_path), std_root) {
        (Some(rest), Some(root)) => {
            let rest_text = join_path(&rest);
            Some(join_under(root, &rest_text))
        },
        _ => None,
    };
    (project_candidate, std_candidate)
}

/// The file a logical path of the graph stands for: the project's file
/// when it exists, else the `std` collection's when there is one and it
/// exists, else the project's path.
pub fn resolve_graph_file_path(candidates: (String, Option<String>), project_is_file: bool, std_is_file: bool) -> (r: String)
    ensures
        r@ == (if project_is_file {
            candidates.0@
        } else {
            match candidates.1 {
                Some(c) => if std_is_file { c@ } else { candidates.0@ },
                None => candidates.0@,
            }
        }),
{
    let (project_candidate, std_candidate) = candidates;
    if project_is_file {
        return project_candidate;
    }
    match std_candidate {
        Some(c) => if std_is_file { c } else { project_candidate },
        None => project_candidate,
    }
}

} // verus!
