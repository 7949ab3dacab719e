use wda_core::codes;
use wda_core::criteria::render_criteria;
use wda_core::entries::{check_locked_dependencies, discover_script_entries};
use wda_core::html::{extract_references_from_html, rewrite_html_references};
use wda_core::json::JsonValue;
use wda_core::layout::{extract_references_from_css, rewrite_css_references};
use wda_core::pages::compute_reachability;
use wda_core::pipeline::{expand_pages, transform_script_entries};
use wda_core::project::{ProjectFile, ProjectTree};
use wda_core::report::detect_http_requirement;
use wda_core::diagnostics::{Diagnostic, Severity};
use wda_core::toolchain::{type_check_plan, type_check_scripts};

fn file(path: &str, text: &str) -> ProjectFile {
    ProjectFile { path: path.to_string(), content: Ok(text.to_string()), canonical: Some(path.to_string()) }
}

fn site() -> ProjectTree {
    ProjectTree {
        files: vec![
            file(
                "pages/index.html",
                "<html><head><link rel=\"stylesheet\" href=\"/styles/site.css\"></head>\n<body><img src=\"/assets/logo.png\"><script type=\"module\" src=\"/scripts/main.ts\"></script></body></html>",
            ),
            file("styles/site.css", "body { background: url(\"../assets/bg.png\"); }"),
            file("assets/logo.png", "png"),
            file("assets/bg.png", "png"),
            file("scripts/main.ts", "import x from 'npm:left-pad@1';\nconsole.log(x);\n"),
        ],
    }
}

const CRITERIA: &str = "# Review\nDesign System**: {{DESIGN_SYSTEM_NAME}}\nAccessibility Baseline**: {{ACCESSIBILITY_BASELINE}}\n{{#if_design_system \"WDA Minimal\"}}\n2D flat layout model\n{{/if_design_system}}\n  {{#if_design_system \"Spectrum 2\"}}  \nreduced-elevation surface model\n{{/if_design_system}}\nEnd";

const DESIGN_TEMPLATE: &str = "# Design System & Visual Review Criteria\n\n- **Design System**: {{DESIGN_SYSTEM_NAME}}\n- **Accessibility Baseline**: {{ACCESSIBILITY_BASELINE}}\n\n## Elevation\n{{#if_design_system \"WDA Minimal\"}}\nSurfaces follow a 2D flat layout model; depth is never implied by shadow.\n{{/if_design_system}}\n{{#if_design_system \"Spectrum 2\"}}\nSurfaces follow the reduced-elevation surface model rather than Adobe Spectrum's 5-tier elevation system.\n{{/if_design_system}}\n\n## Type\n{{#if_design_system \"WDA Minimal\"}}\nHeadings use WDA Minimal's font-size scale.\n{{/if_design_system}}\n{{#if_design_system \"Spectrum 2\"}}\nHeadings use Spectrum 2's refreshed Adobe Clean type scale.\n{{/if_design_system}}\n";

#[test]
fn test_render_criteria_wda_minimal() {
    let rendered = render_criteria(DESIGN_TEMPLATE, "WDA Minimal", "WCAG 2.2 AA");
    assert!(rendered.contains("Design System**: WDA Minimal"));
    assert!(rendered.contains("Accessibility Baseline**: WCAG 2.2 AA"));
    assert!(rendered.contains("2D flat layout model"));
    assert!(!rendered.contains("Adobe Spectrum's 5-tier elevation system"));
    assert!(!rendered.contains("{{#if_design_system"));
    assert!(!rendered.contains("{{/if_design_system}}"));
}

#[test]
fn test_render_criteria_spectrum() {
    let rendered = render_criteria(DESIGN_TEMPLATE, "Spectrum 2", "WCAG 2.1 AA");
    assert!(rendered.contains("Design System**: Spectrum 2"));
    assert!(rendered.contains("Accessibility Baseline**: WCAG 2.1 AA"));
    assert!(rendered.contains("reduced-elevation surface model"));
    assert!(!rendered.contains("2D flat layout model"));
    assert!(!rendered.contains("{{#if_design_system"));
    assert!(!rendered.contains("{{/if_design_system}}"));
}

#[test]
fn test_render_criteria_substantive_difference() {
    let wda = render_criteria(DESIGN_TEMPLATE, "WDA Minimal", "WCAG 2.2 AA");
    let spectrum = render_criteria(DESIGN_TEMPLATE, "Spectrum 2", "WCAG 2.1 AA");
    assert_ne!(wda, spectrum);
    assert!(wda.contains("WDA Minimal's font-size scale"));
    assert!(spectrum.contains("Spectrum 2's refreshed Adobe Clean type scale"));
}

#[test]
fn criteria_keep_only_the_chosen_design_system() {
    let wda = render_criteria(CRITERIA, "WDA Minimal", "WCAG 2.2 AA");
    assert_eq!(
        wda,
        "# Review\nDesign System**: WDA Minimal\nAccessibility Baseline**: WCAG 2.2 AA\n2D flat layout model\nEnd\n"
    );
    let spectrum = render_criteria(CRITERIA, "Spectrum 2", "WCAG 2.1 AA");
    assert!(spectrum.contains("Design System**: Spectrum 2"));
    assert!(spectrum.contains("reduced-elevation surface model"));
    assert!(!spectrum.contains("2D flat layout model"));
    assert!(!spectrum.contains("{{#if_design_system"));
    assert!(!spectrum.contains("{{/if_design_system}}"));
    assert_ne!(wda, spectrum);
}

#[test]
fn reachability_collects_referenced_files_in_path_order() {
    let tree = site();
    let pages = vec![("pages/index.html".to_string(), match &tree.files[0].content {
        Ok(t) => t.clone(),
        Err(_) => unreachable!(),
    })];
    let (set, report) = compute_reachability(&tree, &pages);
    assert_eq!(set, vec!["assets/bg.png".to_string(), "assets/logo.png".to_string(), "styles/site.css".to_string()]);
    assert!(report.diagnostics.is_empty());
}

#[test]
fn reachability_reports_missing_and_secret_targets() {
    let tree = ProjectTree { files: vec![file("pages/index.html", "")] };
    let pages = vec![(
        "pages/index.html".to_string(),
        "<img src=\"/assets/missing.png\">\n<a href=\"/.env\">x</a>".to_string(),
    )];
    let (set, report) = compute_reachability(&tree, &pages);
    assert!(set.is_empty());
    let found: Vec<&str> = report.diagnostics.iter().map(|d| d.code).collect();
    assert!(found.contains(&codes::BUILD_REFERENCE_UNRESOLVABLE));
    assert!(found.contains(&codes::BUILD_SECRET_PATH_REFERENCED));
    assert!(report.has_error());
}

#[test]
fn html_and_css_references_carry_positions() {
    let refs = extract_references_from_html("<p>\n  <img src=\"a.png\"></p>", "pages/index.html");
    assert_eq!(refs.len(), 1);
    assert_eq!(refs[0].raw_url, "a.png");
    assert_eq!(refs[0].source_file, "pages/index.html");
    assert_eq!(refs[0].line, Some(2));

    let css = extract_references_from_css("a{}\nb { background: url('x/y.png') }", "styles/s.css", 1, 1);
    assert_eq!(css.len(), 1);
    assert_eq!(css[0].raw_url, "x/y.png");
    assert_eq!(css[0].line, Some(2));
}

#[test]
fn references_are_rewritten_relative_to_the_output() {
    let tree = site();
    let html = rewrite_html_references("<img src=\"../../assets/logo.png\">", "pages/blog/post.html", &tree);
    assert_eq!(html, "<img src=\"../assets/logo.png\">");
    let absolute = rewrite_html_references("<img src=\"/assets/logo.png\">", "pages/blog/post.html", &tree);
    assert_eq!(absolute, "<img src=\"/assets/logo.png\">");
    let css = rewrite_css_references("a { background: url(\"https://x/y.png\") }", "styles/site.css", &tree);
    assert_eq!(css, "a { background: url(\"https://x/y.png\") }");
}

#[test]
fn script_entries_and_transform_plan() {
    let tree = site();
    let pages = vec![("pages/index.html".to_string(), match &tree.files[0].content {
        Ok(t) => t.clone(),
        Err(_) => unreachable!(),
    })];
    let entries = discover_script_entries(&tree, &pages);
    assert_eq!(entries, vec!["scripts/main.ts".to_string()]);
    let plan = transform_script_entries(&entries, "/tmp/stage").unwrap();
    assert_eq!(plan.len(), 1);
    assert_eq!(plan[0].output, "/tmp/stage/scripts/main.js");
    assert_eq!(plan[0].output_dir, "/tmp/stage/scripts");
    assert_eq!(
        plan[0].args,
        vec![
            "run".to_string(),
            "-A".to_string(),
            "npm:esbuild@0.25.5".to_string(),
            "scripts/main.ts".to_string(),
            "--bundle".to_string(),
            "--format=esm".to_string(),
            "--outfile=/tmp/stage/scripts/main.js".to_string(),
        ]
    );
    let bad = transform_script_entries(&vec!["lib/x.ts".to_string()], "/tmp/stage").unwrap_err();
    assert_eq!(bad.message, "Script entry 'lib/x.ts' is outside the supported scripts mapping");
}

#[test]
fn locked_dependency_check_reports_unlocked_specifier() {
    let tree = site();
    let pages = vec![("pages/index.html".to_string(), match &tree.files[0].content {
        Ok(t) => t.clone(),
        Err(_) => unreachable!(),
    })];
    let report = check_locked_dependencies(&tree, &pages, None);
    assert_eq!(report.diagnostics.len(), 1);
    assert_eq!(report.diagnostics[0].code, codes::BUILD_DEPENDENCY_UNLOCKED);
    assert!(report.diagnostics[0].message.contains("npm:left-pad@1"));

    let lock = JsonValue::Object(vec![(
        "specifiers".to_string(),
        JsonValue::Object(vec![("npm:left-pad@1".to_string(), JsonValue::String("1.3.0".to_string()))]),
    )]);
    assert!(check_locked_dependencies(&tree, &pages, Some(&lock)).diagnostics.is_empty());
}

#[test]
fn http_requirement_follows_module_scripts_and_fetch() {
    assert!(detect_http_requirement(&vec![b"<script type=\"module\" src=\"x.js\"></script>".to_vec()]));
    assert!(detect_http_requirement(&vec![b"<script>fetch('/data.json')</script>".to_vec()]));
    assert!(!detect_http_requirement(&vec![b"<p>prefetch is not a call</p>".to_vec()]));
    assert!(!detect_http_requirement(&vec![]));
}

#[test]
fn pages_are_expanded_with_their_includes() {
    let tree = ProjectTree {
        files: vec![
            file("pages/index.html", "<body><wda-include src=\"../components/nav.html\"></wda-include></body>"),
            file("components/nav.html", "<nav>n</nav>"),
        ],
    };
    let (expanded, report) = expand_pages(&tree, "/p").unwrap();
    assert!(report.diagnostics.is_empty());
    assert_eq!(expanded, vec![("pages/index.html".to_string(), "<body><nav>n</nav></body>".to_string())]);
}

#[test]
fn stylesheet_references_to_dotfiles_are_never_copied() {
    let tree = ProjectTree {
        files: vec![
            file("styles/site.css", "a { background: url('/assets/.hidden/x.png') } b { background: url('/assets/y.png') }"),
            file("assets/.hidden/x.png", "png"),
            file("assets/y.png", "png"),
            file("assets/.env.local", "KEY=1"),
        ],
    };
    let (set, report) = compute_reachability(&tree, &vec![]);
    assert_eq!(set, vec!["assets/y.png".to_string()]);
    assert_eq!(report.diagnostics.len(), 1);
    assert_eq!(report.diagnostics[0].code, codes::BUILD_SECRET_PATH_REFERENCED);
}

#[test]
fn import_of_a_url_yields_its_reference() {
    let refs = extract_references_from_css("@import url(\"assets/x.css\");", "styles/main.css", 1, 1);
    assert_eq!(refs.len(), 1);
    assert_eq!(refs[0].raw_url, "assets/x.css");
    assert_eq!(refs[0].source_file, "styles/main.css");
    assert_eq!(refs[0].line, Some(1));
    let tree = ProjectTree { files: vec![file("styles/main.css", ""), file("styles/x.css", "")] };
    let css = rewrite_css_references("@import url(\"x.css\");", "styles/main.css", &tree);
    assert_eq!(css, "@import url(\"x.css\");");
}

fn unavailable() -> Diagnostic {
    Diagnostic::new(codes::BUILD_TOOL_UNAVAILABLE, Severity::Error, None, "Required tool 'deno' was not found on PATH", "Ensure 'deno' is installed and available on PATH")
}

#[test]
fn missing_deno_fails_the_type_check_even_without_entries() {
    let tree = ProjectTree::new(vec![file("pages/index.html", "<main>No scripts</main>")]);
    let pages = vec![("pages/index.html".to_string(), "<main>No scripts</main>".to_string())];
    let plan = type_check_plan(Err(unavailable()), &tree, &pages);
    let d = plan.unwrap_err();
    let report = type_check_scripts(Err(d));
    assert_eq!(report.diagnostics.len(), 1);
    assert_eq!(report.diagnostics[0].code, codes::BUILD_TOOL_UNAVAILABLE);
    assert_eq!(report.diagnostics[0].severity, Severity::Error);
}

#[test]
fn type_check_without_entries_has_nothing_to_check() {
    let tree = ProjectTree::new(vec![file("pages/index.html", "<main>No scripts</main>")]);
    let pages = vec![("pages/index.html".to_string(), "<main>No scripts</main>".to_string())];
    assert_eq!(type_check_plan(Ok("/usr/bin/deno".to_string()), &tree, &pages).unwrap(), None);
    assert!(type_check_scripts(Ok(())).diagnostics.is_empty());
}

#[test]
fn type_check_runs_deno_on_the_entries() {
    let tree = site();
    let pages = vec![("pages/index.html".to_string(), match &tree.files[0].content {
        Ok(t) => t.clone(),
        Err(_) => unreachable!(),
    })];
    let plan = type_check_plan(Ok("/usr/bin/deno".to_string()), &tree, &pages).unwrap();
    assert_eq!(plan, Some(("/usr/bin/deno".to_string(), vec!["scripts/main.ts".to_string()])));
}
