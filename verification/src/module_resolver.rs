//! Grouping of source files into modules by directory and declared module name.

use vstd::prelude::*;
use crate::text::{chars_of, push_string, string_push, string_from_chars, spec_trim, trim, is_prefix, starts_with_str, string_eq_str, chars_of_string};
use crate::name_set::seq_lt;

verus! {

/// The identity of a module: the directory its files live in (as path
/// components relative to the project root, none for the root itself) and
/// the name the files declare.
#[derive(Debug, Clone, PartialEq, Eq, Hash, PartialOrd, Ord)]
pub struct ModuleKey {
    pub directory: Vec<String>,
    pub module_name: String,
}

/// A module's index in the sorted order of module keys.
#[derive(Debug, Copy, Clone, PartialEq, Eq, Hash, PartialOrd, Ord, Structural)]
pub struct ModuleId(pub usize);

/// Path components joined with `/`.
pub open spec fn join_components(s: Seq<Seq<char>>) -> Seq<char>
    decreases s.len(),
{
    if s.len() == 0 {
        Seq::empty()
    } else if s.len() == 1 {
        s[0]
    } else {
        join_components(s.drop_last()) + seq!['/'] + s.last()
    }
}

/// The directory of a key as a relative path: `.` for the project root.
pub open spec fn spec_directory_text(dir: Seq<Seq<char>>) -> Seq<char> {
    if dir.len() == 0 { seq!['.'] } else { join_components(dir) }
}

/// Path components joined with `/`.
pub fn join_path(parts: &Vec<String>) -> (r: String)
    ensures
        r@ == join_components(comps(parts@)),
{
    let mut out = String::new();
    let mut i: usize = 0;
    while i < parts.len()
        invariant
            i <= parts@.len(),
            out@ == join_components(comps(parts@.take(i as int))),
        decreases parts.len() - i,
    {
        if i > 0 {
            string_push(&mut out, '/');
        }
        push_string(&mut out, &parts[i]);
        proof {
            let t = comps(parts@.take(i + 1));
            assert(t.drop_last() =~= comps(parts@.take(i as int)));
            if i == 0 {
                assert(out@ =~= t[0]);
            } else {
                assert(out@ =~= join_components(t.drop_last()) + seq!['/'] + t.last());
            }
        }
        i = i + 1;
    }
    assert(parts@.take(parts@.len() as int) =~= parts@);
    out
}

impl ModuleKey {
    /// The directory as a relative path, `.` for the project root.
    pub fn directory_text(&self) -> (r: String)
        ensures
            r@ == spec_directory_text(comps(self.directory@)),
    {
        if self.directory.len() == 0 {
            let mut out = String::new();
            string_push(&mut out, '.');
            return out;
        }
        join_path(&self.directory)
    }
}

/// Number of leading `c` characters of `s`.
pub open spec fn leading_count(s: Seq<char>, c: char) -> nat
    decreases s.len(),
{
    if s.len() > 0 && s[0] == c { 1 + leading_count(s.drop_first(), c) } else { 0 }
}

/// Number of trailing `c` characters of `s`.
pub open spec fn trailing_count(s: Seq<char>, c: char) -> nat
    decreases s.len(),
{
    if s.len() > 0 && s.last() == c { 1 + trailing_count(s.drop_last(), c) } else { 0 }
}

/// `s` without its leading and trailing `c` characters, as `str::trim_matches` gives it.
pub open spec fn trim_char(s: Seq<char>, c: char) -> Seq<char> {
    let t = s.skip(leading_count(s, c) as int);
    t.take(t.len() - trailing_count(t, c))
}

proof fn lemma_leading_count_bound(s: Seq<char>, c: char)
    ensures
        leading_count(s, c) <= s.len(),
    decreases s.len(),
{
    if s.len() > 0 && s[0] == c {
        lemma_leading_count_bound(s.drop_first(), c);
    }
}

proof fn lemma_trailing_count_bound(s: Seq<char>, c: char)
    ensures
        trailing_count(s, c) <= s.len(),
    decreases s.len(),
{
    if s.len() > 0 && s.last() == c {
        lemma_trailing_count_bound(s.drop_last(), c);
    }
}

/// `v` without leading and trailing `c` characters.
pub fn trim_char_chars(v: &Vec<char>, c: char) -> (r: Vec<char>)
    ensures
        r@ == trim_char(v@, c),
{
    let n = v.len();
    let mut lo: usize = 0;
    assert(v@.skip(0) =~= v@);
    while lo < n && v[lo] == c
        invariant
            n == v@.len(),
            lo <= n,
            leading_count(v@, c) == lo + leading_count(v@.skip(lo as int), c),
        decreases n - lo,
    {
        assert(v@.skip(lo as int).drop_first() =~= v@.skip(lo + 1));
        lo = lo + 1;
    }
    proof {
        if lo < n {
            assert(v@.skip(lo as int)[0] == v@[lo as int]);
        }
        assert(v@.skip(lo as int).len() == 0 || v@.skip(lo as int)[0] != c);
        assert(leading_count(v@.skip(lo as int), c) == 0);
    }
    let ghost t = v@.skip(lo as int);
    let mut hi: usize = n;
    assert(v@.subrange(lo as int, n as int) =~= t);
    while hi > lo && v[hi - 1] == c
        invariant
            n == v@.len(),
            lo <= hi <= n,
            t == v@.skip(lo as int),
            trailing_count(t, c) == (n - hi) + trailing_count(v@.subrange(lo as int, hi as int), c),
        decreases hi - lo,
    {
        let ghost u = v@.subrange(lo as int, hi as int);
        assert(u.drop_last() =~= v@.subrange(lo as int, hi - 1));
        assert(u.last() == v@[hi - 1]);
        hi = hi - 1;
    }
    proof {
        let u = v@.subrange(lo as int, hi as int);
        if hi > lo {
            assert(u.last() == v@[hi - 1]);
        }
        assert(trailing_count(u, c) == 0);
        assert(t.take(t.len() - trailing_count(t, c)) =~= u);
    }
    crate::text::subvec(v, lo, hi)
}

/// An import path with its quotes and surrounding white space removed.
pub open spec fn spec_normalize_import_path(p: Seq<char>) -> Seq<char> {
    spec_trim(trim_char(p, '"'))
}

/// The import path of a `use` with its quotes and surrounding white space removed.
pub fn normalize_import_path(import_path: &str) -> (r: String)
    ensures
        r@ == spec_normalize_import_path(import_path@),
{
    let v = chars_of(import_path);
    let unquoted = trim_char_chars(&v, '"');
    let t = trim(&unquoted);
    string_from_chars(&t)
}

/// The state of splitting on `/`: the non-empty segments completed so far and
/// the segment being read.
pub open spec fn segment_state(s: Seq<char>) -> (Seq<Seq<char>>, Seq<char>)
    decreases s.len(),
{
    if s.len() == 0 {
        (Seq::empty(), Seq::empty())
    } else {
        let (done, cur) = segment_state(s.drop_last());
        if s.last() == '/' {
            (if cur.len() > 0 { done.push(cur) } else { done }, Seq::empty())
        } else {
            (done, cur.push(s.last()))
        }
    }
}

/// The non-empty segments of a path separated by `/`.
pub open spec fn path_segments(s: Seq<char>) -> Seq<Seq<char>> {
    let (done, cur) = segment_state(s);
    if cur.len() > 0 { done.push(cur) } else { done }
}

/// The non-empty `/`-separated segments of `v`.
pub fn split_path_segments(v: &Vec<char>) -> (r: Vec<String>)
    ensures
        r@.map_values(|x: String| x@) == path_segments(v@),
{
    let mut done: Vec<String> = Vec::new();
    let mut cur: Vec<char> = Vec::new();
    let mut i: usize = 0;
    while i < v.len()
        invariant
            i <= v@.len(),
            (done@.map_values(|x: String| x@), cur@) == segment_state(v@.take(i as int)),
        decreases v.len() - i,
    {
        let c = v[i];
        assert(v@.take(i + 1).drop_last() =~= v@.take(i as int));
        if c == '/' {
            if cur.len() > 0 {
                let ghost before = done@;
                done.push(string_from_chars(&cur));
                assert(done@.map_values(|x: String| x@) =~= before.map_values(|x: String| x@).push(cur@));
            }
            cur = Vec::new();
        } else {
            cur.push(c);
        }
        i = i + 1;
    }
    assert(v@.take(v@.len() as int) =~= v@);
    if cur.len() > 0 {
        let ghost before = done@;
        done.push(string_from_chars(&cur));
        assert(done@.map_values(|x: String| x@) =~= before.map_values(|x: String| x@).push(cur@));
    }
    done
}

/// The character views of path components.
pub open spec fn comps(s: Seq<String>) -> Seq<Seq<char>> {
    s.map_values(|x: String| x@)
}

/// The key a module's import refers to, as seen from module `current`. With
/// `parts` the non-empty `/`-separated segments of the path once trimmed of
/// quotes and spaces: no segments gives the current key back; otherwise the
/// last segment names the module and the others are directories below the
/// current directory, or below the project root when the path starts with
/// `std/` (a directory with no components is the project root `.`).
pub open spec fn spec_module_key_for_import(current_dir: Seq<Seq<char>>, current_name: Seq<char>, import_path: Seq<char>)
    -> (Seq<Seq<char>>, Seq<char>)
{
    let normalized = spec_normalize_import_path(import_path);
    let parts = path_segments(normalized);
    if parts.len() == 0 {
        (current_dir, current_name)
    } else {
        let base = if is_prefix("std/"@, normalized) { Seq::empty() } else { current_dir };
        (base + parts.drop_last(), parts.last())
    }
}

/// The view of a module key: its directory components and its name.
pub open spec fn key_view(k: ModuleKey) -> (Seq<Seq<char>>, Seq<char>) {
    (comps(k.directory@), k.module_name@)
}

/// A copy of a list of strings.
pub fn copy_strings(v: &Vec<String>) -> (r: Vec<String>)
    ensures
        r@ == v@,
{
    let mut out: Vec<String> = Vec::new();
    let mut i: usize = 0;
    while i < v.len()
        invariant
            i <= v@.len(),
            out@ == v@.take(i as int),
        decreases v.len() - i,
    {
        out.push(v[i].clone());
        assert(out@ =~= v@.take(i + 1));
        i = i + 1;
    }
    assert(v@.take(v@.len() as int) =~= v@);
    out
}

impl ModuleKey {
    /// A copy of the key.
    pub fn duplicate(&self) -> (r: ModuleKey)
        ensures
            r.directory@ == self.directory@,
            r.module_name == self.module_name,
    {
        ModuleKey { directory: copy_strings(&self.directory), module_name: self.module_name.clone() }
    }
}

/// The key of the module that `import_path` names, imported from `current`.
pub fn module_key_for_import(current: &ModuleKey, import_path: &str) -> (r: ModuleKey)
    ensures
        key_view(r) == spec_module_key_for_import(comps(current.directory@), current.module_name@, import_path@),
{
    let normalized = normalize_import_path(import_path);
    let nv = chars_of_string(&normalized);
    let mut parts = split_path_segments(&nv);
    if parts.len() == 0 {
        return current.duplicate();
    }
    let ghost all = parts@;
    let module_name = parts.pop().unwrap();
    assert(parts@ =~= all.drop_last());
    let is_std_absolute = starts_with_str(&nv, "std/");
    let mut directory = if is_std_absolute { Vec::new() } else { copy_strings(&current.directory) };
    let ghost base = directory@;
    let mut i: usize = 0;
    while i < parts.len()
        invariant
            i <= parts@.len(),
            directory@ == base + parts@.take(i as int),
        decreases parts.len() - i,
    {
        directory.push(parts[i].clone());
        assert(directory@ =~= base + parts@.take(i + 1));
        i = i + 1;
    }
    assert(parts@.take(parts@.len() as int) =~= parts@);
    let r = ModuleKey { directory, module_name };
    proof {
        assert(comps(r.directory@) =~= comps(base) + comps(all).drop_last());
        if !is_std_absolute {
            assert(comps(base) == comps(current.directory@));
        } else {
            assert(comps(base) =~= Seq::<Seq<char>>::empty());
        }
    }
    r
}

/// The directory of a path relative to the project root: all its components
/// but the last (none for a file at the root).
pub open spec fn spec_relative_directory_of(path: Seq<String>) -> Seq<String> {
    if path.len() <= 1 { Seq::empty() } else { path.drop_last() }
}

/// The directory part of a relative file path.
pub fn relative_directory_of(path: &Vec<String>) -> (r: Vec<String>)
    ensures
        r@ == spec_relative_directory_of(path@),
{
    let mut out = copy_strings(path);
    if out.len() <= 1 {
        return Vec::new();
    }
    out.pop();
    out
}

/// A path below the `std` collection, relative to that collection.
pub open spec fn spec_strip_std_prefix(path: Seq<String>) -> Option<Seq<String>> {
    if path.len() > 0 && path[0]@ == "std"@ { Some(path.drop_first()) } else { None }
}

/// The part of a logical path below the `std` collection, if it is there.
pub fn strip_std_prefix(path: &Vec<String>) -> (r: Option<Vec<String>>)
    ensures
        match spec_strip_std_prefix(path@) {
            Some(rest) => r matches Some(v) && v@ == rest,
            None => r is None,
        },
{
    if path.len() == 0 || !string_eq_str(&path[0], "std") {
        return None;
    }
    let mut out: Vec<String> = Vec::new();
    let mut i: usize = 1;
    while i < path.len()
        invariant
            1 <= i <= path@.len(),
            out@ == path@.subrange(1, i as int),
        decreases path.len() - i,
    {
        out.push(path[i].clone());
        assert(out@ =~= path@.subrange(1, i + 1));
        i = i + 1;
    }
    assert(out@ =~= path@.drop_first());
    Some(out)
}

} // verus!
