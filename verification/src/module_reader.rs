//! Reading a module file's declared name: comments are stripped line by
//! line, and the first line with other text must read `module <name>`.

use vstd::prelude::*;
use crate::diagnostics::{Diagnostic, DiagnosticCode, DiagnosticPhase, Severity};
use crate::text::{
    chars_of, chars_of_string, contains_seq, eq_str, find_str, is_whitespace, push_str, push_string, spec_is_whitespace,
    spec_trim, string_from_chars, string_push, subvec, trim,
};

verus! {

/// The text a line keeps once comments are removed, starting at index `i`
/// inside a block comment or not, and whether a block comment is still open
/// at the end of the line. `//` ends the line's text; `/*` opens a block
/// comment that `*/` closes, possibly on a later line.
pub open spec fn strip_from(s: Seq<char>, i: int, in_block: bool) -> (Seq<char>, bool)
    decreases s.len() - i,
{
    if i < 0 || i >= s.len() {
        (Seq::empty(), in_block)
    } else if in_block {
        if s[i] == '*' && i + 1 < s.len() && s[i + 1] == '/' {
            strip_from(s, i + 2, false)
        } else {
            strip_from(s, i + 1, true)
        }
    } else if s[i] == '/' && i + 1 < s.len() && s[i + 1] == '/' {
        (Seq::empty(), false)
    } else if s[i] == '/' && i + 1 < s.len() && s[i + 1] == '*' {
        strip_from(s, i + 2, true)
    } else {
        let (rest, b) = strip_from(s, i + 1, false);
        (seq![s[i]] + rest, b)
    }
}

/// Removes comments from one line; `in_block_comment` carries an open block
/// comment from line to line.
pub fn strip_comments(line: &str, in_block_comment: &mut bool) -> (r: String)
    ensures
        r@ == strip_from(line@, 0, *old(in_block_comment)).0,
        *final(in_block_comment) == strip_from(line@, 0, *old(in_block_comment)).1,
{
    let chars = chars_of(line);
    let n = chars.len();
    let mut out = String::new();
    let mut index: usize = 0;
    let ghost start = *in_block_comment;
    while index < n
        invariant
            n == chars@.len(),
            chars@ == line@,
            start == *old(in_block_comment),
            index <= n + 1,
            out@ + strip_from(chars@, index as int, *in_block_comment).0 == strip_from(chars@, 0, start).0,
            strip_from(chars@, index as int, *in_block_comment).1 == strip_from(chars@, 0, start).1,
        decreases n + 1 - index,
    {
        if *in_block_comment {
            if chars[index] == '*' && index + 1 < n && chars[index + 1] == '/' {
                *in_block_comment = false;
                index = index + 2;
            } else {
                index = index + 1;
            }
            continue;
        }
        if chars[index] == '/' && index + 1 < n {
            if chars[index + 1] == '/' {
                assert(strip_from(chars@, index as int, false) == (Seq::<char>::empty(), false));
                assert(out@ =~= strip_from(chars@, 0, start).0);
                return out;
            }
            if chars[index + 1] == '*' {
                *in_block_comment = true;
                index = index + 2;
                continue;
            }
        }
        let ghost before = out@;
        string_push(&mut out, chars[index]);
        assert(before + strip_from(chars@, index as int, false).0 =~= out@ + strip_from(chars@, index + 1, false).0);
        index = index + 1;
    }
    assert(out@ =~= out@ + strip_from(chars@, index as int, *in_block_comment).0);
    out
}

/// Whether `c` is an ASCII letter.
pub open spec fn spec_is_ascii_alpha(c: char) -> bool {
    ('a' <= c && c <= 'z') || ('A' <= c && c <= 'Z')
}

/// Whether `c` is an ASCII letter or digit.
pub open spec fn spec_is_ascii_alnum(c: char) -> bool {
    spec_is_ascii_alpha(c) || ('0' <= c && c <= '9')
}

/// A module name starts with a letter or `_` and goes on with letters,
/// digits and `_`.
pub open spec fn spec_valid_module_name(n: Seq<char>) -> bool {
    &&& n.len() > 0
    &&& (spec_is_ascii_alpha(n[0]) || n[0] == '_')
    &&& forall|k: int| 1 <= k < n.len() ==> spec_is_ascii_alnum(#[trigger] n[k]) || n[k] == '_'
}

/// A character that may go on a module name: an ASCII letter, digit or `_`.
pub open spec fn name_char(c: char) -> bool {
    ('a' <= c && c <= 'z') || ('A' <= c && c <= 'Z') || ('0' <= c && c <= '9') || c == '_'
}

/// Module names: the empty name is none; a single character is one exactly
/// when it is an ASCII letter or `_` (so no name starts with a digit); a
/// valid name stays valid when an ASCII letter, digit or `_` is appended and
/// when it is cut to a non-empty prefix; and a name holding any other
/// character is none.
pub proof fn lemma_module_name_rules(n: Seq<char>, c: char, k: int)
    ensures
        !spec_valid_module_name(Seq::empty()),
        spec_valid_module_name(seq![c]) == ((('a' <= c && c <= 'z') || ('A' <= c && c <= 'Z')) || c == '_'),
        n.len() > 0 && '0' <= n[0] && n[0] <= '9' ==> !spec_valid_module_name(n),
        spec_valid_module_name(n) && name_char(c) ==> spec_valid_module_name(n.push(c)),
        spec_valid_module_name(n) && 1 <= k <= n.len() ==> spec_valid_module_name(n.take(k)),
        0 <= k < n.len() && !name_char(n[k]) ==> !spec_valid_module_name(n),
        spec_valid_module_name(n) ==> forall|i: int| 0 <= i < n.len() ==> name_char(#[trigger] n[i]),
{
    if spec_valid_module_name(n) && name_char(c) {
        let m = n.push(c);
        assert forall|i: int| 1 <= i < m.len() implies spec_is_ascii_alnum(#[trigger] m[i]) || m[i] == '_' by {
            if i < n.len() {
                assert(m[i] == n[i]);
            }
        }
    }
    if spec_valid_module_name(n) && 1 <= k <= n.len() {
        let m = n.take(k);
        assert forall|i: int| 1 <= i < m.len() implies spec_is_ascii_alnum(#[trigger] m[i]) || m[i] == '_' by {
            assert(m[i] == n[i]);
        }
    }
    if 0 <= k < n.len() && !name_char(n[k]) && k >= 1 {
        assert(!(spec_is_ascii_alnum(n[k]) || n[k] == '_'));
    }
}

/// Whether `name` is a valid module name.
pub fn is_valid_module_name(name: &Vec<char>) -> (r: bool)
    ensures
        r == spec_valid_module_name(name@),
{
    if name.len() == 0 {
        return false;
    }
    let first = name[0];
    if !(('a' <= first && first <= 'z') || ('A' <= first && first <= 'Z') || first == '_') {
        return false;
    }
    let mut i: usize = 1;
    while i < name.len()
        invariant
            1 <= i <= name@.len(),
            forall|k: int| 1 <= k < i ==> spec_is_ascii_alnum(#[trigger] name@[k]) || name@[k] == '_',
        decreases name.len() - i,
    {
        let c = name[i];
        if !(('a' <= c && c <= 'z') || ('A' <= c && c <= 'Z') || ('0' <= c && c <= '9') || c == '_') {
            return false;
        }
        i = i + 1;
    }
    true
}

/// The name a line declares: the line splits on white space into exactly
/// the word `module` and one more word, which is the name.
pub open spec fn spec_declared_name(c: Seq<char>) -> Option<Seq<char>> {
    if c.len() > 6 && c.take(6) == "module"@ && spec_is_whitespace(c[6]) {
        let rest = spec_trim(c.skip(6));
        if rest.len() > 0 && forall|k: int| 0 <= k < rest.len() ==> !spec_is_whitespace(#[trigger] rest[k]) {
            Some(rest)
        } else {
            None
        }
    } else {
        None
    }
}

/// The word after `module` on a declaration line, if the line is one.
fn declared_name(c: &Vec<char>) -> (r: Option<Vec<char>>)
    ensures
        match spec_declared_name(c@) {
            Some(n) => r matches Some(v) && v@ == n,
            None => r is None,
        },
{
    proof { reveal_strlit("module"); }
    if c.len() <= 6 {
        return None;
    }
    let head = subvec(c, 0, 6);
    assert(head@ =~= c@.take(6));
    if !eq_str(&head, "module") || !is_whitespace(c[6]) {
        return None;
    }
    let tail = subvec(c, 6, c.len());
    assert(tail@ =~= c@.skip(6));
    let rest = trim(&tail);
    if rest.len() == 0 {
        return None;
    }
    let mut i: usize = 0;
    while i < rest.len()
        invariant
            i <= rest@.len(),
            rest@.len() > 0,
            rest@ == spec_trim(c@.skip(6)),
            c@.len() > 6 && c@.take(6) == "module"@ && spec_is_whitespace(c@[6]),
            forall|k: int| 0 <= k < i ==> !spec_is_whitespace(#[trigger] rest@[k]),
        decreases rest.len() - i,
    {
        if is_whitespace(rest[i]) {
            assert(spec_is_whitespace(rest@[i as int]));
            return None;
        }
        i = i + 1;
    }
    Some(rest)
}

/// Why a module file has no module name.
#[derive(Debug, Clone, PartialEq, Eq)]
pub enum ModuleReadError {
    MissingModuleDeclaration,
    InvalidModuleDeclaration { line: String },
    Io { message: String },
}

/// The outcome of reading a module name, over character sequences.
pub enum ModuleNameView {
    Found(Seq<char>),
    Missing,
    Invalid(Seq<char>),
    Io(Seq<char>),
}

/// The outcome of scanning `lines` from line `i`, with a block comment open
/// or not; `read_error` is the error that stopped reading after the last line.
pub open spec fn scan_lines(lines: Seq<Seq<char>>, i: int, in_block: bool, read_error: Option<Seq<char>>) -> ModuleNameView
    decreases lines.len() - i,
{
    if i < 0 || i >= lines.len() {
        match read_error {
            Some(m) => ModuleNameView::Io(m),
            None => ModuleNameView::Missing,
        }
    } else {
        let (stripped, b) = strip_from(lines[i], 0, in_block);
        let candidate = spec_trim(stripped);
        if candidate.len() == 0 {
            scan_lines(lines, i + 1, b, read_error)
        } else {
            match spec_declared_name(candidate) {
                Some(n) => if spec_valid_module_name(n) {
                    ModuleNameView::Found(n)
                } else {
                    ModuleNameView::Invalid(candidate)
                },
                None => ModuleNameView::Invalid(candidate),
            }
        }
    }
}

/// The view of a read result.
pub open spec fn read_view(r: Result<String, ModuleReadError>) -> ModuleNameView {
    match r {
        Ok(n) => ModuleNameView::Found(n@),
        Err(ModuleReadError::MissingModuleDeclaration) => ModuleNameView::Missing,
        Err(ModuleReadError::InvalidModuleDeclaration { line }) => ModuleNameView::Invalid(line@),
        Err(ModuleReadError::Io { message }) => ModuleNameView::Io(message@),
    }
}

/// The character views of lines.
pub open spec fn line_views(lines: Seq<String>) -> Seq<Seq<char>> {
    lines.map_values(|l: String| l@)
}

/// The view of an optional message.
pub open spec fn opt_view(m: Option<String>) -> Option<Seq<char>> {
    match m {
        Some(s) => Some(s@),
        None => None,
    }
}

/// The module name that a file declares: the first line with text besides
/// comments and white space must read `module <name>` with a valid name.
/// `lines` are the lines read from the file; `read_error` is the error, if
/// any, that stopped the reading after them.
pub fn read_module_name(lines: &Vec<String>, read_error: &Option<String>) -> (r: Result<String, ModuleReadError>)
    ensures
        read_view(r) == scan_lines(line_views(lines@), 0, false, opt_view(*read_error)),
{
    let ghost ls = line_views(lines@);
    let mut in_block_comment = false;
    let mut i: usize = 0;
    while i < lines.len()
        invariant
            i <= lines@.len(),
            ls == line_views(lines@),
            scan_lines(ls, i as int, in_block_comment, opt_view(*read_error))
                == scan_lines(ls, 0, false, opt_view(*read_error)),
        decreases lines.len() - i,
    {
        assert(ls[i as int] == lines@[i as int]@);
        let stripped = strip_comments(lines[i].as_str(), &mut in_block_comment);
        let candidate_chars = chars_of_string(&stripped);
        let candidate = trim(&candidate_chars);
        if candidate.len() > 0 {
            let line = string_from_chars(&candidate);
            return match declared_name(&candidate) {
                Some(name) => if is_valid_module_name(&name) {
                    Ok(string_from_chars(&name))
                } else {
                    Err(ModuleReadError::InvalidModuleDeclaration { line })
                },
                None => Err(ModuleReadError::InvalidModuleDeclaration { line }),
            };
        }
        i = i + 1;
    }
    match read_error {
        Some(m) => Err(ModuleReadError::Io { message: m.clone() }),
        None => Err(ModuleReadError::MissingModuleDeclaration),
    }
}

/// The diagnostic message of a failed read.
pub open spec fn spec_read_error_message(kind: ModuleNameView) -> Seq<char> {
    match kind {
        ModuleNameView::Invalid(line) => "invalid module declaration: '"@ + line + "'"@,
        ModuleNameView::Io(m) => "failed to read module file: "@ + m,
        _ => "missing module declaration"@,
    }
}

/// The code of the diagnostic of a failed read.
pub open spec fn spec_read_error_code(kind: ModuleNameView) -> DiagnosticCode {
    match kind {
        ModuleNameView::Invalid(_) => DiagnosticCode::E1004,
        ModuleNameView::Io(_) => DiagnosticCode::E1002,
        _ => DiagnosticCode::E1003,
    }
}

/// The label message of the diagnostic of a failed read.
pub open spec fn spec_read_error_label(kind: ModuleNameView) -> Seq<char> {
    match kind {
        ModuleNameView::Invalid(_) => "expected `module <name>` as first non-comment declaration"@,
        ModuleNameView::Io(_) => "io error while reading file"@,
        _ => "file must declare `module <name>`"@,
    }
}

/// The diagnostic that reports a file without a module name, labelled with the file.
pub fn to_resolver_diagnostic(file_path: String, kind: ModuleReadError) -> (r: Diagnostic)
    ensures
        r.severity == Severity::Error,
        r.phase == DiagnosticPhase::ModuleResolver,
        r.code == spec_read_error_code(read_view(Err(kind))),
        r.message@ == spec_read_error_message(read_view(Err(kind))),
        r.primary_label matches Some(l) && l.file@ == file_path@ && l.span is None
            && l.message@ == spec_read_error_label(read_view(Err(kind))),
{
    match kind {
        ModuleReadError::MissingModuleDeclaration => {
            let d = Diagnostic::error(
                DiagnosticPhase::ModuleResolver,
                DiagnosticCode::E1003,
                crate::text::string_from_str("missing module declaration"),
            );
            d.with_primary_file_label(file_path, None, crate::text::string_from_str("file must declare `module <name>`"))
        },
        ModuleReadError::InvalidModuleDeclaration { line } => {
            let mut message = String::new();
            push_str(&mut message, "invalid module declaration: '");
            push_string(&mut message, &line);
            string_push(&mut message, '\'');
            proof { reveal_strlit("'"); }
            let ghost expected = spec_read_error_message(ModuleNameView::Invalid(line@));
            assert(message@ =~= expected);
            let d = Diagnostic::error(DiagnosticPhase::ModuleResolver, DiagnosticCode::E1004, message);
            d.with_primary_file_label(
                file_path,
                None,
                crate::text::string_from_str("expected `module <name>` as first non-comment declaration"),
            )
        },
        ModuleReadError::Io { message: m } => {
            let mut message = String::new();
            push_str(&mut message, "failed to read module file: ");
            push_string(&mut message, &m);
            let d = Diagnostic::error(DiagnosticPhase::ModuleResolver, DiagnosticCode::E1002, message);
            d.with_primary_file_label(file_path, None, crate::text::string_from_str("io error while reading file"))
        },
    }
}

/// Whether a source text imports from the `std` collection.
pub open spec fn spec_requests_std(source: Seq<char>) -> bool {
    contains_seq(source, "use \"std/"@)
}

/// Whether a source text imports from the `std` collection: it contains
/// `use "std/`.
pub fn source_requests_std_import(source: &str) -> (r: bool)
    ensures
        r == spec_requests_std(source@),
{
    let v = chars_of(source);
    find_str(&v, "use \"std/").is_some()
}

} // verus!
