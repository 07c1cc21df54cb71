use lib::diagnostics::DiagnosticCode;
use lib::module_graph::{resolve_module_graph, resolve_modules, ModuleGraph, SourceFile};
use lib::module_resolver::{module_key_for_import, normalize_import_path, ModuleId, ModuleKey};

fn source(path: &[&str], text: &str) -> SourceFile {
    SourceFile {
        path: path.iter().map(|p| p.to_string()).collect(),
        lines: text.lines().map(|l| l.to_string()).collect(),
        read_error: None,
    }
}

fn key(directory: &[&str], name: &str) -> ModuleKey {
    ModuleKey { directory: directory.iter().map(|p| p.to_string()).collect(), module_name: name.to_string() }
}

fn group_len(graph: &ModuleGraph, k: &ModuleKey) -> Option<usize> {
    graph.groups.iter().find(|(gk, _)| gk == k).map(|(_, files)| files.len())
}

fn resolve(project: Vec<SourceFile>, std_files: Vec<SourceFile>) -> ModuleGraph {
    resolve_module_graph("/project".to_string(), &project, &std_files)
}

#[test]
fn groups_by_directory_and_module_name() {
    let graph = resolve(
        vec![
            source(&["a.dyn"], "module math\nval := 1\n"),
            source(&["b.dyn"], "module math\nval := 2\n"),
            source(&["c.dyn"], "module io\nval := 3\n"),
            source(&["nested", "d.dyn"], "module math\nval := 4\n"),
        ],
        Vec::new(),
    );
    assert!(graph.diagnostics.is_empty());
    assert_eq!(graph.groups.len(), 3);
    assert_eq!(group_len(&graph, &key(&[], "math")), Some(2));
    assert_eq!(group_len(&graph, &key(&[], "io")), Some(1));
    assert_eq!(group_len(&graph, &key(&["nested"], "math")), Some(1));
}

#[test]
fn skips_comments_before_module_declaration() {
    let graph = resolve(
        vec![source(&["comments_ok.dyn"], "// heading\n/// doc\n/* block\ncomment */\nmodule main\n")],
        Vec::new(),
    );
    assert!(graph.diagnostics.is_empty());
    assert_eq!(graph.groups.len(), 1);
    assert_eq!(group_len(&graph, &key(&[], "main")), Some(1));
}

#[test]
fn collects_all_bad_files_as_diagnostics() {
    let graph = resolve(
        vec![
            source(&["good.dyn"], "module good\nval := 1\n"),
            source(&["bad_missing.dyn"], "// only comments\n/* still comments */\n"),
            source(&["bad_invalid.dyn"], "not_module main\n"),
        ],
        Vec::new(),
    );
    assert_eq!(graph.groups.len(), 1);
    assert_eq!(graph.diagnostics.len(), 2);
    assert!(matches!(graph.diagnostics[0].code, DiagnosticCode::E1003 | DiagnosticCode::E1004));
    assert!(matches!(graph.diagnostics[1].code, DiagnosticCode::E1003 | DiagnosticCode::E1004));
}

#[test]
fn assigns_stable_module_ids_from_sorted_keys() {
    let graph = resolve(
        vec![
            source(&["a", "z.dyn"], "module zoo\n"),
            source(&["a", "a.dyn"], "module alpha\n"),
            source(&["b", "k.dyn"], "module alpha\n"),
        ],
        Vec::new(),
    );
    assert!(graph.diagnostics.is_empty());
    assert_eq!(graph.modules.len(), 3);
    let key_a_alpha = key(&["a"], "alpha");
    let key_a_zoo = key(&["a"], "zoo");
    let key_b_alpha = key(&["b"], "alpha");
    assert_eq!(graph.module_id(&key_a_alpha), Some(ModuleId(0)));
    assert_eq!(graph.module_id(&key_a_zoo), Some(ModuleId(1)));
    assert_eq!(graph.module_id(&key_b_alpha), Some(ModuleId(2)));
    let module = graph.module(ModuleId(1)).expect("module id 1 should exist");
    assert_eq!(module.key, key_a_zoo);
}

#[test]
fn includes_bundled_std_module_when_project_imports_std_path() {
    let graph = resolve(
        vec![source(&["a.dyn"], "module main\nio := use \"std/io\"\nmain := () i32 => 0\n")],
        vec![source(&["io.dyn"], "module io\nprint := (s: []u8) void => {}\n")],
    );
    let stdlib_io_key = key(&["std"], "io");
    assert!(graph.module_id(&stdlib_io_key).is_some(), "expected std/io to be present in resolved modules");
}

#[test]
fn leaves_std_out_when_project_does_not_import_it() {
    let graph = resolve(
        vec![source(&["a.dyn"], "module main\nmain := () i32 => 0\n")],
        vec![source(&["io.dyn"], "module io\n")],
    );
    assert_eq!(graph.module_id(&key(&["std"], "io")), None);
    assert_eq!(graph.modules.len(), 1);
}

#[test]
fn project_file_shadows_std_file_with_the_same_path() {
    let graph = resolve(
        vec![
            source(&["a.dyn"], "module main\nio := use \"std/io\"\n"),
            source(&["std", "io.dyn"], "module mine\n"),
        ],
        vec![source(&["io.dyn"], "module io\n")],
    );
    assert!(graph.module_id(&key(&["std"], "mine")).is_some());
    assert_eq!(graph.module_id(&key(&["std"], "io")), None);
}

#[test]
fn reports_read_errors_and_sorts_diagnostics_by_path() {
    let mut broken = source(&["b.dyn"], "");
    broken.read_error = Some("io error at b.dyn: denied".to_string());
    let graph = resolve(vec![broken, source(&["a.dyn"], "module\n")], Vec::new());
    assert_eq!(graph.diagnostics.len(), 2);
    assert_eq!(graph.diagnostics[0].code, DiagnosticCode::E1004);
    assert_eq!(graph.diagnostics[0].message, "invalid module declaration: 'module'");
    assert_eq!(graph.diagnostics[1].code, DiagnosticCode::E1002);
    assert_eq!(graph.diagnostics[1].message, "failed to read module file: io error at b.dyn: denied");
    assert_eq!(graph.diagnostics[1].primary_label.as_ref().map(|l| l.file.clone()), Some("b.dyn".to_string()));
}

#[test]
fn normalizes_quoted_import_paths() {
    assert_eq!(normalize_import_path("\"std/io\""), "std/io");
    assert_eq!(normalize_import_path("\"\"util\"\""), "util");
    assert_eq!(normalize_import_path("\" util \""), "util");
    assert_eq!(normalize_import_path("  \"util\"  "), "\"util\"");
}

#[test]
fn resolves_imports_relative_to_the_current_directory() {
    let current = key(&["app"], "main");
    assert_eq!(module_key_for_import(&current, "\"util/strings\""), key(&["app", "util"], "strings"));
    assert_eq!(module_key_for_import(&current, "\"std/io\""), key(&["std"], "io"));
    assert_eq!(module_key_for_import(&current, "\"//\""), current);
    let root = key(&[], "main");
    assert_eq!(module_key_for_import(&root, "\"math\""), key(&[], "math"));
}

#[test]
fn resolve_modules_gives_the_graph_groups_none_empty() {
    let files = vec![
        source(&["b.dyn"], "module math\nval := 2\n"),
        source(&["a.dyn"], "module math\nval := 1\n"),
        source(&["bad.dyn"], "not_module main\n"),
        source(&["c.dyn"], "module io\nval := 3\n"),
    ];
    let graph = resolve(files.clone(), Vec::new());
    let groups = resolve_modules("/project".to_string(), &files, &Vec::new());
    assert_eq!(groups, graph.groups);
    assert_eq!(groups.len(), 2);
    assert!(groups.iter().all(|(_, fs)| !fs.is_empty()));
}
