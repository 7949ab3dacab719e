use wda_core::codes;
use wda_core::diagnostics::{
    escape_control_chars, normalize_path, render, render_fault, Diagnostic, Location, Severity, ToolFault,
    ValidationReport, VersionStatus,
};

#[test]
fn test_validation_report_has_error() {
    let mut report = ValidationReport::new();
    assert!(!report.has_error(), "Empty report has_error must be false");
    report.add(Diagnostic::new(
        codes::DOCS_SOURCE_REF_UNRESOLVABLE,
        Severity::Warning,
        Some(Location::path_only("docs/arch.md")),
        "Unresolvable source ref",
        "Fix link target",
    ));
    assert!(!report.has_error(), "Warning-only report has_error must be false");
    report.add(Diagnostic::new(
        codes::CONTRACT_MISSING,
        Severity::Error,
        Some(Location::path_only("wda.json")),
        "Missing wda.json",
        "Run wda init to create wda.json",
    ));
    assert!(report.has_error(), "Mixed report with Error has_error must be true");
}

#[test]
fn test_diagnostic_total_order_sort() {
    let d0 = Diagnostic::new(codes::DOCS_REQUIRED_DOCUMENT_MISSING, Severity::Error, None, "Missing document", "Create document")
        .with_ordinal(1);
    let d1 = Diagnostic::new(
        codes::DOCS_REQUIRED_DOCUMENT_MISSING,
        Severity::Error,
        Some(Location::path_only("a.md")),
        "Missing document",
        "Create document",
    )
    .with_ordinal(1);
    let d2 = Diagnostic::new(
        codes::DOCS_REQUIRED_DOCUMENT_MISSING,
        Severity::Error,
        Some(Location::new("a.md", Some(10), None)),
        "Missing document",
        "Create document",
    )
    .with_ordinal(1);
    let d3 = Diagnostic::new(
        codes::DOCS_REQUIRED_DOCUMENT_MISSING,
        Severity::Error,
        Some(Location::new("a.md", Some(10), Some(5))),
        "Missing document",
        "Create document",
    )
    .with_ordinal(1);
    let d4 = Diagnostic::new(
        codes::HTML_DUPLICATE_ID,
        Severity::Error,
        Some(Location::new("a.md", Some(10), Some(5))),
        "Duplicate ID",
        "Fix ID",
    )
    .with_ordinal(1);
    let d5 = Diagnostic::new(
        codes::HTML_DUPLICATE_ID,
        Severity::Error,
        Some(Location::new("a.md", Some(10), Some(5))),
        "Duplicate ID",
        "Fix ID",
    )
    .with_ordinal(2);

    let mut report = ValidationReport::new();
    report.add(d5.clone());
    report.add(d4.clone());
    report.add(d3.clone());
    report.add(d2.clone());
    report.add(d1.clone());
    report.add(d0.clone());
    report.sort();
    let expected = vec![d0, d1, d2, d3, d4, d5];
    assert_eq!(report.diagnostics, expected);
}

#[test]
fn test_render_diagnostic_injection_hardening() {
    let host_prefix = "/home/user/project/";
    let path_with_ctrl = format!("{host_prefix}src\\main\n\r\u{7}.rs");
    let loc = Location::new(&path_with_ctrl, Some(10), Some(5));
    let diagnostic = Diagnostic::new(
        codes::CONTRACT_MISSING,
        Severity::Error,
        Some(loc),
        "Message with \n \r \u{7} control characters",
        "Action with \n \r \u{7} control characters",
    );
    let rendered = render(&diagnostic);
    assert_eq!(rendered.lines().count(), 1, "rendered output must be exactly one line");
    assert!(!rendered.contains('\n'));
    assert!(!rendered.contains('\r'));
    assert!(!rendered.contains('\u{7}'));
    assert!(rendered.contains("\\n"));
    assert!(rendered.contains("\\r"));
    assert!(rendered.contains("\\u{7}"));
    assert!(!rendered.contains("C:"));
    assert!(!rendered.contains("/home/user"));
    assert!(!rendered.contains("project"));
    assert!(!rendered.contains("user"));
    assert!(!rendered.contains("host"));
    assert!(rendered.contains("error"), "severity must be present");
    assert!(rendered.contains(codes::CONTRACT_MISSING), "code must be present");
    assert!(rendered.contains("10:5"), "position must be present");
}

#[test]
fn test_render_tool_fault() {
    let fault_with_path = ToolFault::new(
        "Schema compilation failed\nwith newline\r\u{7}",
        Some("schemas/wda.schema.json"),
    );
    let rendered_with_path = render_fault(&fault_with_path);
    assert_eq!(rendered_with_path.lines().count(), 1);
    assert!(rendered_with_path.contains(codes::TOOL_FAULT));
    assert!(rendered_with_path.contains("schemas/wda.schema.json"));
    assert!(rendered_with_path.contains("\\n"));

    let fault_no_path = ToolFault::new("Internal failure without path", None);
    let rendered_no_path = render_fault(&fault_no_path);
    assert_eq!(rendered_no_path.lines().count(), 1);
    assert!(rendered_no_path.contains(codes::TOOL_FAULT));
    assert!(rendered_no_path.contains("Internal failure without path"));
}

#[test]
fn test_render_path_normalization() {
    let loc = Location::new("src/validation/documents.rs", Some(42), Some(1));
    let diagnostic = Diagnostic::new(
        codes::DOCS_FRONT_MATTER_MALFORMED,
        Severity::Warning,
        Some(loc),
        "Malformed front matter",
        "Fix YAML syntax",
    );
    let rendered = render(&diagnostic);
    assert!(rendered.contains("src/validation/documents.rs"));
    assert!(!rendered.contains('\\'));
}

#[test]
fn test_version_status_severity_mapping() {
    assert_eq!(VersionStatus::Current.severity_of(), None);
    assert_eq!(VersionStatus::SupportedLegacy.severity_of(), Some(Severity::Warning));
    assert_eq!(VersionStatus::DeprecatedLegacy.severity_of(), Some(Severity::Warning));
    assert_eq!(VersionStatus::Unsupported.severity_of(), Some(Severity::Error));
}

#[test]
fn render_of_windows_separators_uses_slashes() {
    let d = Diagnostic::new(
        codes::HTML_LANG_MISSING,
        Severity::Error,
        Some(Location::new("pages\\index.html", Some(3), Some(7))),
        "Missing lang",
        "Add lang",
    );
    let r = render(&d);
    assert!(r.contains("pages/index.html"));
    assert!(!r.contains('\\'));
}

#[test]
fn escape_control_chars_escapes_exactly_controls() {
    assert_eq!(escape_control_chars("a\nb"), "a\\nb");
    assert_eq!(escape_control_chars("plain"), "plain");
    assert_eq!(escape_control_chars("x\u{7}"), "x\\u{7}");
}

#[test]
fn normalize_path_uses_forward_slashes() {
    assert_eq!(normalize_path("a\\b\\c.rs"), "a/b/c.rs");
}

#[test]
fn sort_keeps_equal_diagnostics_in_insertion_order() {
    let a = Diagnostic::new(codes::HTML_LANG_MISSING, Severity::Error, Some(Location::path_only("p.html")), "A", "x");
    let b = Diagnostic::new(codes::HTML_LANG_MISSING, Severity::Error, Some(Location::path_only("p.html")), "B", "x");
    let mut report = ValidationReport::new();
    report.add(a);
    report.add(b);
    report.sort();
    assert_eq!(report.diagnostics[0].message, "A");
    assert_eq!(report.diagnostics[1].message, "B");
    assert_eq!(report.diagnostics[1].ordinal, 1);
}

#[test]
fn second_sort_changes_nothing() {
    let mut report = ValidationReport::new();
    report.add(Diagnostic::new(codes::HTML_LANG_MISSING, Severity::Error, Some(Location::new("b.html", Some(2), None)), "B", "x"));
    report.add(Diagnostic::new(codes::HTML_LANG_MISSING, Severity::Warning, Some(Location::new("a.html", Some(9), Some(1))), "A", "x"));
    report.add(Diagnostic::new(codes::HTML_LANG_MISSING, Severity::Error, None, "C", "x"));
    report.sort();
    let once: Vec<String> = report.diagnostics.iter().map(|d| d.message.clone()).collect();
    report.sort();
    let twice: Vec<String> = report.diagnostics.iter().map(|d| d.message.clone()).collect();
    assert_eq!(once, twice);
    assert_eq!(once, vec!["C".to_string(), "A".to_string(), "B".to_string()]);
}
