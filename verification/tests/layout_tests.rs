use wda_core::codes;
use wda_core::diagnostics::Severity;
use wda_core::expand::{expand_includes, expand_includes_for_page};
use wda_core::ids::check_duplicate_ids;
use wda_core::diagnostics::ValidationReport;
use wda_core::layout::{classify_reference, is_secret_path, make_relative_path, map_source_to_dist, resolve_reference_target, ReferenceKind};
use wda_core::pages::{compute_source_mapping, discover_pages};
use wda_core::project::{ProjectFile, ProjectTree};

fn file(path: &str, text: &str) -> ProjectFile {
    ProjectFile { path: path.to_string(), content: Ok(text.to_string()), canonical: Some(path.to_string()) }
}

#[test]
fn test_colliding_source_paths_yield_output_path_collision_error() {
    let sources = vec![
        "pages/styles/tokens.css.html".to_string(),
        "styles/tokens.css".to_string(),
        "tokens/tokens.json".to_string(),
    ];
    let res = compute_source_mapping(&sources);
    assert!(res.is_err(), "colliding sources must yield error");
    let report = res.unwrap_err();
    assert!(report.has_error());
    let error_codes: Vec<&str> = report.diagnostics.iter().map(|d| d.code).collect();
    assert!(error_codes.contains(&codes::BUILD_OUTPUT_PATH_COLLISION));
    let diag = report.diagnostics.iter().find(|d| d.code == codes::BUILD_OUTPUT_PATH_COLLISION).unwrap();
    assert_eq!(diag.severity, Severity::Error);
    assert!(diag.message.contains("dist/styles/tokens.css"));
}

#[test]
fn test_fixed_mapping_table_cases() {
    assert_eq!(map_source_to_dist("pages/index.html"), Some("dist/index.html".to_string()));
    assert_eq!(map_source_to_dist("pages/blog/post.html"), Some("dist/blog/post.html".to_string()));
    assert_eq!(map_source_to_dist("styles/main.css"), Some("dist/styles/main.css".to_string()));
    assert_eq!(map_source_to_dist("scripts/main.ts"), Some("dist/scripts/main.js".to_string()));
    assert_eq!(map_source_to_dist("assets/images/hero.png"), Some("dist/assets/images/hero.png".to_string()));
    assert_eq!(map_source_to_dist("tokens/tokens.json"), Some("dist/styles/tokens.css".to_string()));
    assert_eq!(map_source_to_dist("components/header.html"), None);
    assert_eq!(map_source_to_dist("wda.json"), None);
    assert_eq!(map_source_to_dist("README.md"), None);
    assert_eq!(map_source_to_dist("docs/architecture.md"), None);
    assert_eq!(map_source_to_dist(".gitignore"), None);
    assert_eq!(map_source_to_dist(".env"), None);
    assert_eq!(map_source_to_dist(".env.local"), None);
    assert_eq!(map_source_to_dist("assets/.DS_Store"), None);
}

#[test]
fn test_reference_classification_scheme_protocol_relative_fragment_and_filepath() {
    assert_eq!(classify_reference("#overview"), ReferenceKind::Fragment);
    assert_eq!(classify_reference("#"), ReferenceKind::Fragment);
    assert_eq!(classify_reference("//cdn.example.com/lib.js"), ReferenceKind::ProtocolRelative);
    assert_eq!(
        classify_reference("data:image/svg+xml,%3Csvg xmlns='http://www.w3.org/2000/svg'%3E%3C/svg%3E"),
        ReferenceKind::Scheme("data".to_string())
    );
    assert_eq!(classify_reference("https://example.com/style.css"), ReferenceKind::Scheme("https".to_string()));
    assert_eq!(classify_reference("http://example.com"), ReferenceKind::Scheme("http".to_string()));
    assert_eq!(classify_reference("mailto:user@example.com"), ReferenceKind::Scheme("mailto".to_string()));
    assert_eq!(classify_reference("tel:+1234567890"), ReferenceKind::Scheme("tel".to_string()));
    assert_eq!(classify_reference("styles/tokens.css"), ReferenceKind::FilePath("styles/tokens.css".to_string()));
    assert_eq!(
        classify_reference("assets/images/hero.png"),
        ReferenceKind::FilePath("assets/images/hero.png".to_string())
    );
    assert_eq!(classify_reference(".env"), ReferenceKind::FilePath(".env".to_string()));
}

#[test]
fn test_secret_path_detection_cases() {
    assert!(is_secret_path(".env"));
    assert!(is_secret_path(".env.local"));
    assert!(is_secret_path(".env.production"));
    assert!(is_secret_path(".git/config"));
    assert!(is_secret_path(".DS_Store"));
    assert!(is_secret_path("sub/.env"));
    assert!(is_secret_path("assets/.secret"));
    assert!(!is_secret_path("styles/tokens.css"));
    assert!(!is_secret_path("assets/hero.png"));
    assert!(!is_secret_path("pages/index.html"));
}

#[test]
fn relative_path_between_dist_directories() {
    assert_eq!(make_relative_path("blog", "styles/main.css"), "../styles/main.css");
    assert_eq!(make_relative_path("", "styles/main.css"), "styles/main.css");
}

#[test]
fn reference_target_resolves_parent_components() {
    assert_eq!(resolve_reference_target("../styles/a.css", "pages/blog/post.html"), "pages/styles/a.css");
}

#[test]
fn pages_are_discovered_below_pages_only() {
    let tree = ProjectTree::new(vec![
        file("pages/about.html", "<p>a</p>"),
        file("pages/index.html", "<p>i</p>"),
        file("components/nav.html", "<nav></nav>"),
        file("docs/x.html", "<p></p>"),
    ]);
    let pages = discover_pages(&tree);
    assert_eq!(pages, vec!["pages/about.html".to_string(), "pages/index.html".to_string()]);
}

#[test]
fn nested_include_expands_and_keeps_templates() {
    let tree = ProjectTree::new(vec![
        file("components/nav.html", "<nav><wda-include src=\"links.html\"></wda-include></nav>"),
        file("components/links.html", "<a href=\"/\">Home</a><a href=\"/about\">About</a>"),
    ]);
    let page = "<body>\n  <slot name=\"header\">Default Header</slot>\n  <div class=\"user\">{{ user_name }}</div>\n  {% if active %}\n  <wda-include src=\"components/nav.html\"></wda-include>\n</body>";
    let expanded = expand_includes(page, &tree).expect("nested include expansion must succeed");
    assert_eq!(expanded.matches("<wda-include").count(), 0);
    assert!(expanded.contains("<nav><a href=\"/\">Home</a><a href=\"/about\">About</a></nav>"));
    assert!(expanded.contains("<slot name=\"header\">Default Header</slot>"));
    assert!(expanded.contains("{{ user_name }}"));
    assert!(expanded.contains("{% if active %}"));
}

#[test]
fn root_escaping_include_is_an_error() {
    let tree = ProjectTree::new(vec![]);
    let report = expand_includes("<div><wda-include src=\"../outside.html\"></wda-include></div>", &tree).unwrap_err();
    assert_eq!(report.diagnostics.len(), 1);
    assert_eq!(report.diagnostics[0].code, codes::BUILD_INCLUDE_ESCAPES_ROOT);
    assert_eq!(report.diagnostics[0].severity, Severity::Error);
}

#[test]
fn missing_include_target_is_an_error() {
    let tree = ProjectTree::new(vec![]);
    let report =
        expand_includes("<div><wda-include src=\"components/missing.html\"></wda-include></div>", &tree).unwrap_err();
    assert_eq!(report.diagnostics.len(), 1);
    assert_eq!(report.diagnostics[0].code, codes::BUILD_INCLUDE_UNRESOLVABLE);
}

#[test]
fn cyclic_includes_are_an_error() {
    let tree = ProjectTree::new(vec![
        file("components/cycle_a.html", "<div><wda-include src=\"cycle_b.html\"></wda-include></div>"),
        file("components/cycle_b.html", "<div><wda-include src=\"cycle_a.html\"></wda-include></div>"),
        file("components/self.html", "<div><wda-include src=\"self.html\"></wda-include></div>"),
    ]);
    let report =
        expand_includes("<div><wda-include src=\"components/cycle_a.html\"></wda-include></div>", &tree).unwrap_err();
    assert_eq!(report.diagnostics[0].code, codes::BUILD_INCLUDE_CYCLE);
    let report = expand_includes("<div><wda-include src=\"components/self.html\"></wda-include></div>", &tree).unwrap_err();
    assert_eq!(report.diagnostics[0].code, codes::BUILD_INCLUDE_CYCLE);
}

#[test]
fn self_closing_include_expands_exactly() {
    let tree = ProjectTree::new(vec![file("components/widget.html", "<span>Widget</span>")]);
    let expanded = expand_includes("<div><wda-include src=\"components/widget.html\" /></div>", &tree).unwrap();
    assert_eq!(expanded, "<div><span>Widget</span></div>");
}

#[test]
fn text_without_includes_is_unchanged() {
    let tree = ProjectTree::new(vec![]);
    let page = "<p class=\"x\">plain {{ y }}</p>";
    assert_eq!(expand_includes(page, &tree).unwrap(), page);
}

#[test]
fn excluded_sources_never_map_into_dist() {
    for p in ["assets/.env", "assets/.hidden/x.png", ".env.local", "styles/a/.x.css", "components/nav.html", "docs/a.md", "dist/index.html", "wda.json", "README.md", ".gitignore", "assets\\.env"] {
        assert_eq!(map_source_to_dist(p), None, "{p}");
    }
    assert_eq!(map_source_to_dist("assets/env.png"), Some("dist/assets/env.png".to_string()));
}

#[test]
fn test_duplicate_id_introduced_by_include_expansion_yields_duplicate_id_error() {
    let tree = ProjectTree::new(vec![
        file("components/header.html", "<header id=\"navigation\">Header Content</header>\n"),
        file("components/footer.html", "<footer id=\"navigation\">Footer Content</footer>\n"),
    ]);
    let page_content = r#"<!DOCTYPE html>
<html lang="en">
<head><title>Test</title></head>
<body>
  <wda-include src="../components/header.html"></wda-include>
  <wda-include src="../components/footer.html"></wda-include>
</body>
</html>"#;

    let res = expand_includes_for_page(page_content, "pages/index.html", &tree);
    assert!(res.is_err(), "expansion introducing duplicate IDs must fail");
    let report = res.unwrap_err();
    assert!(report.has_error());
    let expansion_dup_ids: Vec<_> =
        report.diagnostics.iter().filter(|d| d.code == codes::HTML_DUPLICATE_ID).collect();
    assert_eq!(expansion_dup_ids.len(), 1, "must emit duplicate-id diagnostic for duplicated ID");
    let diag = expansion_dup_ids[0];
    assert_eq!(diag.code, codes::HTML_DUPLICATE_ID);
    assert_eq!(diag.severity, Severity::Error);
    assert_eq!(diag.location.as_ref().unwrap().path, "pages/index.html");
    assert!(diag.message.contains("navigation"), "diagnostic message must identify duplicate ID 'navigation'");

    let top_content = r#"<div>
  <wda-include src="components/header.html"></wda-include>
  <wda-include src="components/footer.html"></wda-include>
</div>"#;
    let res_top = expand_includes(top_content, &tree);
    assert!(res_top.is_err());
    let top_report = res_top.unwrap_err();
    assert_eq!(top_report.diagnostics.iter().filter(|d| d.code == codes::HTML_DUPLICATE_ID).count(), 1);
}

#[test]
fn each_repeated_id_is_reported_once() {
    let mut report = ValidationReport::new();
    check_duplicate_ids(
        "<a id=\"x\"></a><b id=\"y\"></b><i id=\"x\"></i><p ID=\"x\"></p><q id=\"y\"></q><s id=\"\"></s><u id=\"\"></u>",
        "pages/a.html",
        &mut report,
    );
    assert_eq!(report.diagnostics.len(), 2);
    assert_eq!(report.diagnostics[0].message, "Duplicate id 'x' names more than one element of the page");
    assert_eq!(report.diagnostics[1].message, "Duplicate id 'y' names more than one element of the page");
    assert_eq!(report.diagnostics[1].ordinal, 1);
    assert_eq!(report.diagnostics[0].next_action, "Give each element of the page an id of its own");
    assert!(report.diagnostics.iter().all(|d| d.location.as_ref().unwrap().line.is_none()));
}

#[test]
fn distinct_ids_pass_the_expanded_page() {
    let tree = ProjectTree::new(vec![file("components/a.html", "<nav id=\"top\"></nav>")]);
    let page = "<main id=\"main\"><wda-include src=\"../components/a.html\"></wda-include></main>";
    let out = expand_includes_for_page(page, "pages/index.html", &tree).unwrap();
    assert_eq!(out, "<main id=\"main\"><nav id=\"top\"></nav></main>");
}
