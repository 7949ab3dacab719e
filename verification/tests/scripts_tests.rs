use wda_core::codes;
use wda_core::deps::{
    add_dependency, is_staged_dependencies_empty, read_manifest, remove_dependency, serialize_manifest, update_dependencies,
    CommitOutcome, DepsError, ManifestSource, StagedFiles,
};
use wda_core::diagnostics::Severity;
use wda_core::json::JsonValue;
use wda_core::scripts::{
    extract_module_specifiers, file_url_form, package_name_from_bare_specifier, read_lock_state, rewrite_workspace_paths,
    LockState,
};
use wda_core::tools::{tool_candidates, ToolLaunch};

fn lock(keys: &[&str]) -> LockState {
    LockState { keys: keys.iter().map(|k| k.to_string()).collect() }
}

#[test]
fn test_resolve_deno_returns_path_and_can_start() {
    let dirs = vec!["/usr/local/bin".to_string()];
    let launch = ToolLaunch::Exited { success: true, status: "exit status: 0".to_string() };
    let res = wda_core::toolchain::resolve_deno(&dirs, &vec![true], Some(&launch));
    assert!(res.is_ok(), "deno must be resolvable, got: {:?}", res.as_ref().err());
    assert_eq!(res.unwrap(), "/usr/local/bin/deno");
}

#[test]
fn covers_matches_bare_specifier_and_subpath_against_locked_scoped_package() {
    let lock = lock(&["npm:@scope/name@1.0.0"]);
    assert!(lock.covers("@scope/name"));
    assert!(lock.covers("@scope/name/sub/file.js"));
}

#[test]
fn covers_matches_bare_specifier_and_subpath_against_locked_unscoped_package() {
    let lock = lock(&["npm:name@1.0.0"]);
    assert!(lock.covers("name"));
    assert!(lock.covers("name/sub.js"));
}

#[test]
fn covers_rejects_bare_specifier_and_subpath_when_lock_lacks_package() {
    let lock = lock(&["npm:other@1.0.0"]);
    assert!(!lock.covers("@scope/name"));
    assert!(!lock.covers("@scope/name/sub/file.js"));
    assert!(!lock.covers("name"));
    assert!(!lock.covers("name/sub.js"));
}

#[test]
fn covers_leaves_relative_absolute_and_url_specifiers_uncovered() {
    let lock = lock(&["npm:name@1.0.0"]);
    assert!(!lock.covers("./x.ts"));
    assert!(!lock.covers("/x.ts"));
    assert!(!lock.covers("https://example.com/x.ts"));
}

#[test]
fn covers_matches_versionless_npm_specifier_against_locked_package() {
    let lock = lock(&["npm:name@1.0.0"]);
    assert!(lock.covers("npm:name"));
}

#[test]
fn lock_state_reads_only_the_specifiers_section() {
    let parsed = JsonValue::Object(vec![
        (
            "specifiers".to_string(),
            JsonValue::Object(vec![("npm:direct@1.0.0".to_string(), JsonValue::String("1.0.0".to_string()))]),
        ),
        (
            "npm".to_string(),
            JsonValue::Object(vec![("transitive@2.0.0".to_string(), JsonValue::Object(vec![]))]),
        ),
    ]);
    let state = read_lock_state(Some(&parsed));
    assert_eq!(state.keys, vec!["npm:direct@1.0.0".to_string()]);
    assert!(!state.covers("transitive"));
    assert!(state.covers("direct"));
    assert!(read_lock_state(None).keys.is_empty());
}

#[test]
fn package_names_of_bare_specifiers() {
    assert_eq!(package_name_from_bare_specifier("@scope/name/sub/file.js"), "@scope/name");
    assert_eq!(package_name_from_bare_specifier("name/sub.js"), "name");
    assert_eq!(package_name_from_bare_specifier("name"), "name");
}

#[test]
fn module_specifiers_of_static_and_dynamic_imports() {
    let source = "import { a } from \"./a.ts\";\nexport * from './b.ts';\nconst c = await import(\"npm:c\");\n";
    assert_eq!(
        extract_module_specifiers(source),
        vec!["./a.ts".to_string(), "./b.ts".to_string(), "npm:c".to_string()]
    );
}

#[test]
fn tool_candidates_join_search_directories() {
    let dirs = vec!["/usr/bin".to_string(), "/opt/bin/".to_string(), "".to_string()];
    assert_eq!(
        tool_candidates(" deno ", &dirs),
        vec!["/usr/bin/deno".to_string(), "/opt/bin/deno".to_string(), "deno".to_string()]
    );
    assert_eq!(tool_candidates("./bin/deno", &dirs), vec!["./bin/deno".to_string()]);
    assert!(tool_candidates("  ", &dirs).is_empty());
}

#[test]
fn resolve_tool_reports_missing_and_failed_tools() {
    let dirs = vec!["/usr/bin".to_string()];
    let missing = wda_core::toolchain::resolve_tool("impossible_tool", &dirs, &vec![false], None).unwrap_err();
    assert_eq!(missing.code, codes::BUILD_TOOL_UNAVAILABLE);
    assert_eq!(missing.message, "Required tool 'impossible_tool' was not found on PATH");
    assert!(missing.location.is_none());

    let empty = wda_core::toolchain::resolve_tool("", &dirs, &vec![], None).unwrap_err();
    assert_eq!(empty.message, "Required tool name cannot be empty");

    let failed = ToolLaunch::Exited { success: false, status: "exit status: 3".to_string() };
    let cannot_start = wda_core::toolchain::resolve_deno(&dirs, &vec![true], Some(&failed)).unwrap_err();
    assert_eq!(
        cannot_start.message,
        "Required tool 'deno' at '/usr/bin/deno' failed to start (exit status: exit status: 3)"
    );
    let other = wda_core::toolchain::resolve_tool("git", &dirs, &vec![true], Some(&failed)).unwrap();
    assert_eq!(other, "/usr/bin/git");
}

#[test]
fn test_resolve_deno_success() {
    let dirs = vec!["/usr/bin".to_string(), "/home/u/.deno/bin".to_string()];
    let launch = ToolLaunch::Exited { success: true, status: "exit status: 0".to_string() };
    let res = wda_core::resolve::resolve_deno(&dirs, &vec![false, true], Some(&launch));
    assert_eq!(res.unwrap(), "/home/u/.deno/bin/deno");
}

#[test]
fn test_deps_submodules_declared() {
    let _ = read_manifest;
    let _ = wda_core::resolve::resolve_deno;
}

#[test]
fn deps_resolution_failures_are_tool_faults() {
    let res = wda_core::resolve::resolve_deno(&vec![String::new()], &vec![false], None);
    let diag = res.unwrap_err();
    assert_eq!(diag.code, codes::TOOL_FAULT);
    assert_eq!(diag.severity, Severity::Error);
    assert!(diag.message.contains("deno"));
    assert!(diag.location.is_none());
}

fn object(members: Vec<(&str, JsonValue)>) -> JsonValue {
    JsonValue::Object(members.into_iter().map(|(k, v)| (k.to_string(), v)).collect())
}

fn text(s: &str) -> JsonValue {
    JsonValue::String(s.to_string())
}

#[test]
fn manifest_absent_reads_as_empty() {
    assert_eq!(read_manifest("p/package.json", &ManifestSource::Absent).unwrap(), vec![]);
}

#[test]
fn manifest_dependencies_read_sorted() {
    let parsed = object(vec![
        ("name", text("sample-project")),
        ("dependencies", object(vec![("zebra", text("1.0.0")), ("alpha", text("^2.1.0"))])),
    ]);
    let deps = read_manifest("p/package.json", &ManifestSource::Parsed(Ok(parsed))).unwrap();
    assert_eq!(
        deps,
        vec![("alpha".to_string(), "^2.1.0".to_string()), ("zebra".to_string(), "1.0.0".to_string())]
    );
    let no_deps = object(vec![("name", text("sample-project"))]);
    assert!(read_manifest("p/package.json", &ManifestSource::Parsed(Ok(no_deps))).unwrap().is_empty());
}

#[test]
fn manifest_faults_name_the_path() {
    let bad = read_manifest("p/package.json", &ManifestSource::Parsed(Err("expected value".to_string()))).unwrap_err();
    assert_eq!(bad.message, "Failed to parse package.json at p/package.json: expected value");
    assert_eq!(bad.path, Some("p/package.json".to_string()));
    let arr = read_manifest("p/package.json", &ManifestSource::Parsed(Ok(JsonValue::Array(vec![])))).unwrap_err();
    assert!(arr.message.contains("root must be an object"));
    let num = object(vec![("dependencies", object(vec![("pkg", JsonValue::Number("123".to_string()))]))]);
    let non_str = read_manifest("p/package.json", &ManifestSource::Parsed(Ok(num))).unwrap_err();
    assert_eq!(non_str.message, "Invalid dependency version for 'pkg' in p/package.json: value must be a string");
    let unreadable = read_manifest("p/package.json", &ManifestSource::Unreadable("denied".to_string())).unwrap_err();
    assert_eq!(unreadable.message, "Failed to read package.json at p/package.json: denied");
}

#[test]
fn test_write_manifest_serializes_only_dependencies_key_deterministic_order() {
    let deps = vec![
        ("zebra".to_string(), "1.0.0".to_string()),
        ("alpha".to_string(), "^2.0.0".to_string()),
        ("middle".to_string(), "0.5.0".to_string()),
    ];
    let serialized = serialize_manifest(&deps).expect("serialize manifest");
    let expected = "{\n  \"dependencies\": {\n    \"alpha\": \"^2.0.0\",\n    \"middle\": \"0.5.0\",\n    \"zebra\": \"1.0.0\"\n  }\n}\n";
    assert_eq!(serialized, expected);

    let value: serde_json::Value = serde_json::from_str(&serialized).unwrap();
    let obj = value.as_object().unwrap();
    assert_eq!(obj.len(), 1, "manifest must contain only dependencies key");
    assert!(obj.contains_key("dependencies"));
}

#[test]
fn test_resolve_tool_impossible_name_yields_tool_unavailable_error() {
    let impossible_name = "impossible_tool_name_wda_test_nonexistent";
    let dirs = vec!["/usr/bin".to_string(), "/bin".to_string()];
    let res = wda_core::toolchain::resolve_tool(impossible_name, &dirs, &vec![false, false], None);
    assert!(res.is_err(), "impossible tool name must fail resolution");
    let diag = res.unwrap_err();
    assert_eq!(diag.code, codes::BUILD_TOOL_UNAVAILABLE);
    assert_eq!(diag.severity, Severity::Error);
    assert!(diag.message.contains(impossible_name));
    assert!(diag.location.is_none());
}

#[test]
fn scripts_test_resolve_tool_empty_name_fails() {
    let dirs = vec!["/usr/bin".to_string()];
    let res = wda_core::toolchain::resolve_tool("", &dirs, &vec![], None);
    assert!(res.is_err());
    let diag = res.unwrap_err();
    assert_eq!(diag.code, codes::BUILD_TOOL_UNAVAILABLE);
    assert_eq!(diag.severity, Severity::Error);
}

#[test]
fn test_resolve_tool_with_custom_empty_path() {
    let res = wda_core::toolchain::resolve_tool("deno", &vec![], &vec![], None);
    assert!(res.is_err());
    let diag = res.unwrap_err();
    assert_eq!(diag.code, codes::BUILD_TOOL_UNAVAILABLE);
    assert_eq!(diag.severity, Severity::Error);
    assert!(diag.message.contains("deno"));
}

#[test]
fn rewrite_workspace_paths_replaces_native_and_url_forms_with_the_project_root() {
    let workspace_path = "/tmp/wda-build-ws-1-2";
    let root = "/home/tester/myproject";
    let entry = format!("{}/scripts/main.ts", workspace_path);
    let native_message = format!("TS2322 [ERROR]: at {}:1:7", entry);
    let url_message = format!("TS2322 [ERROR]: at {}:1:7", file_url_form(&entry));

    let rewritten_native = rewrite_workspace_paths(&native_message, workspace_path, root, None);
    let rewritten_url = rewrite_workspace_paths(&url_message, workspace_path, root, None);

    assert!(rewritten_native.contains(root) && !rewritten_native.contains("wda-build-ws"));
    assert!(rewritten_url.contains(&file_url_form(root)) && !rewritten_url.contains("wda-build-ws"));
    assert_eq!(rewritten_native, "TS2322 [ERROR]: at /home/tester/myproject/scripts/main.ts:1:7");
    assert_eq!(rewritten_url, "TS2322 [ERROR]: at file:///home/tester/myproject/scripts/main.ts:1:7");
}

#[test]
fn staged_manifest_emptiness() {
    let empty = object(vec![("dependencies", object(vec![]))]);
    assert_eq!(is_staged_dependencies_empty(&Ok(empty)).unwrap(), true);
    assert_eq!(is_staged_dependencies_empty(&Ok(object(vec![]))).unwrap(), true);
    let one = object(vec![("dependencies", object(vec![("a", text("1"))]))]);
    assert_eq!(is_staged_dependencies_empty(&Ok(one)).unwrap(), false);
    assert!(is_staged_dependencies_empty(&Err("bad".to_string())).unwrap_err().message.contains("Failed to parse staged package.json"));
}

#[test]
fn add_decides_arguments_and_errors() {
    let args = add_dependency("p", true, &ManifestSource::Absent, " is-number@7.0.0 ").unwrap();
    assert_eq!(args, vec!["add".to_string(), "--package-json".to_string(), "is-number@7.0.0".to_string()]);
    match add_dependency("p", false, &ManifestSource::Absent, "x").unwrap_err() {
        DepsError::ToolFault(f) => assert_eq!(f.message, "Project root directory not found: p"),
        other => panic!("unexpected {:?}", other),
    }
    match add_dependency("p", true, &ManifestSource::Absent, "  ").unwrap_err() {
        DepsError::Diagnostic(d) => assert_eq!(d.code, codes::TOOL_FAULT),
        other => panic!("unexpected {:?}", other),
    }
    match add_dependency("p", true, &ManifestSource::Parsed(Err("eof".to_string())), "x").unwrap_err() {
        DepsError::ToolFault(f) => assert_eq!(f.path, Some("p/package.json".to_string())),
        other => panic!("unexpected {:?}", other),
    }
}

#[test]
fn remove_requires_a_declared_name() {
    let parsed = object(vec![("dependencies", object(vec![("is-number", text("^7.0.0"))]))]);
    let source = ManifestSource::Parsed(Ok(parsed));
    let args = remove_dependency("p", true, &source, "is-number").unwrap();
    assert_eq!(args, vec!["remove".to_string(), "--package-json".to_string(), "is-number".to_string()]);
    let err = remove_dependency("p", true, &source, "other").unwrap_err();
    let d = err.diagnostic().unwrap();
    assert_eq!(d.code, codes::CLI_USAGE);
    assert_eq!(d.message, "Dependency 'other' is not declared in package.json");
    assert!(err.tool_fault().is_none());
    let blank = remove_dependency("p", true, &ManifestSource::Absent, " ").unwrap_err();
    assert_eq!(blank.diagnostic().unwrap().message, "Dependency name cannot be empty");
}

#[test]
fn update_without_dependencies_is_a_noop() {
    assert_eq!(update_dependencies("p", true, &ManifestSource::Absent, None).unwrap(), None);
    let err = update_dependencies("p", true, &ManifestSource::Absent, Some("ghost")).unwrap_err();
    assert_eq!(err.diagnostic().unwrap().code, codes::CLI_USAGE);
    let parsed = object(vec![("dependencies", object(vec![("a", text("1"))]))]);
    let all = update_dependencies("p", true, &ManifestSource::Parsed(Ok(parsed)), None).unwrap();
    assert_eq!(all, Some(vec!["update".to_string()]));
}

#[test]
fn commit_outcome_accessors() {
    let o = CommitOutcome::non_empty("{}", "lock");
    assert!(!o.is_empty());
    assert_eq!(
        o.staged_files(),
        Some(StagedFiles { package_json: "{}".to_string(), deno_lock: Some("lock".to_string()) })
    );
    assert!(CommitOutcome::empty().is_empty());
    assert_eq!(CommitOutcome::empty().staged_files(), None);
}

#[test]
fn deps_errors_render_as_one_line() {
    let fault = DepsError::ToolFault(wda_core::diagnostics::ToolFault::new("bad\nthing", None));
    assert_eq!(fault.to_display_string(), wda_core::diagnostics::render_fault(fault.tool_fault().unwrap()));
    assert!(!fault.to_display_string().contains('\n'));
}

#[test]
fn dynamic_import_scan_steps_over_a_character_beyond_ascii() {
    let source = "const a = import(é);\nconst b = import(\"./later.ts\");\nimport(";
    assert_eq!(extract_module_specifiers(source), vec!["./later.ts".to_string()]);
}

#[test]
fn test_roundtrip_two_entry_map_and_identical_byte_sequences() {
    let original = vec![("pkg-a".to_string(), "1.0.0".to_string()), ("pkg-b".to_string(), "2.0.0".to_string())];
    let bytes_first = wda_core::deps::write_dependencies(&original).expect("first write succeeds");
    let source = wda_core::deps::manifest_source_of_text(&bytes_first);
    let read_back = wda_core::deps::read_dependencies("package.json", &source).expect("read back succeeds");
    assert_eq!(read_back, original);
    let bytes_second = wda_core::deps::write_dependencies(&original).expect("second write succeeds");
    assert_eq!(bytes_first, bytes_second, "consecutive writes of same map must be byte-identical");
}

#[test]
fn escaped_names_and_versions_read_back_unchanged() {
    let original = vec![
        ("a\"quote".to_string(), "back\\slash".to_string()),
        ("ünï".to_string(), "line\nbreak\ttab".to_string()),
    ];
    let text = wda_core::deps::write_dependencies(&original).unwrap();
    let source = wda_core::deps::manifest_source_of_text(&text);
    assert_eq!(wda_core::deps::read_dependencies("p/package.json", &source).unwrap(), original);
}
