use wda_core::cli::{
    parse_args, render_build_summary, render_check_summary, render_deps_summary, render_init_summary,
    DepsCommand, Invocation, A11Y_SCOPE_NOTE,
};
use wda_core::codes;
use wda_core::diagnostics::Severity;

#[test]
fn test_parse_args_five_commands_and_version() {
    assert_eq!(parse_args(&["check"]), Invocation::Check);
    assert_eq!(parse_args(&["init"]), Invocation::Init);
    assert_eq!(
        parse_args(&["deps", "add", "is-number@7.0.0"]),
        Invocation::Deps(DepsCommand::Add("is-number@7.0.0".to_string()))
    );
    assert_eq!(
        parse_args(&["deps", "remove", "is-number"]),
        Invocation::Deps(DepsCommand::Remove("is-number".to_string()))
    );
    assert_eq!(parse_args(&["deps", "update"]), Invocation::Deps(DepsCommand::Update(None)));
    assert_eq!(
        parse_args(&["deps", "update", "is-number"]),
        Invocation::Deps(DepsCommand::Update(Some("is-number".to_string())))
    );
    assert_eq!(parse_args(&["build"]), Invocation::Build);
    assert_eq!(parse_args(&["--version"]), Invocation::Version);

    assert_eq!(parse_args(&["wda", "check"]), Invocation::Check);
    assert_eq!(parse_args(&["wda", "init"]), Invocation::Init);
    assert_eq!(
        parse_args(&["wda", "deps", "add", "is-number@7.0.0"]),
        Invocation::Deps(DepsCommand::Add("is-number@7.0.0".to_string()))
    );
    assert_eq!(
        parse_args(&["wda", "deps", "remove", "is-number"]),
        Invocation::Deps(DepsCommand::Remove("is-number".to_string()))
    );
    assert_eq!(parse_args(&["wda", "deps", "update"]), Invocation::Deps(DepsCommand::Update(None)));
    assert_eq!(
        parse_args(&["wda", "deps", "update", "is-number"]),
        Invocation::Deps(DepsCommand::Update(Some("is-number".to_string())))
    );
    assert_eq!(parse_args(&["wda", "build"]), Invocation::Build);
    assert_eq!(parse_args(&["wda", "--version"]), Invocation::Version);
}

fn expect_usage(outcome: Invocation, code: &str) {
    if let Invocation::UsageError(diag) = outcome {
        assert_eq!(diag.code, code);
        assert_eq!(diag.severity, Severity::Error);
        assert!(diag.location.is_none());
    } else {
        panic!("Expected UsageError, got {:?}", outcome);
    }
}

#[test]
fn test_parse_args_deps_missing_subcommand_or_spec_carries_cli_usage() {
    expect_usage(parse_args(&["deps"]), codes::CLI_USAGE);
    expect_usage(parse_args(&["deps", "add"]), codes::CLI_USAGE);
    expect_usage(parse_args(&["deps", "remove"]), codes::CLI_USAGE);
    expect_usage(parse_args(&["deps", "foo"]), codes::CLI_USAGE);
    expect_usage(parse_args(&["deps", "add", "pkg", "extra"]), codes::CLI_USAGE);
}

#[test]
fn test_parse_args_unknown_command_carries_cli_usage() {
    expect_usage(parse_args(&["unknown"]), codes::CLI_USAGE);
    expect_usage(parse_args(&["wda", "unknown"]), codes::CLI_USAGE);
}

#[test]
fn test_parse_args_unknown_flag_carries_cli_usage() {
    expect_usage(parse_args(&["--unknown-flag"]), codes::CLI_USAGE);
    expect_usage(parse_args(&["wda", "--foo"]), codes::CLI_USAGE);
}

#[test]
fn test_parse_args_empty_or_binary_only_carries_cli_usage() {
    expect_usage(parse_args(&[]), codes::CLI_USAGE);
    expect_usage(parse_args(&["wda"]), codes::CLI_USAGE);
}

#[test]
fn test_parse_args_unexpected_extra_arguments() {
    expect_usage(parse_args(&["check", "extra"]), codes::CLI_USAGE);
}

#[test]
fn test_parse_args_reject_json_flag() {
    let cases: Vec<Vec<&str>> = vec![
        vec!["wda", "--version", "--json"],
        vec!["wda", "--json", "check"],
        vec!["wda", "check", "--json"],
        vec!["--json"],
        vec!["--version", "--json"],
    ];
    for case in cases {
        expect_usage(parse_args(&case), codes::CLI_JSON_NOT_SUPPORTED);
    }
}

#[test]
fn test_render_deps_summary() {
    let add_summary = render_deps_summary(&DepsCommand::Add("is-number@7.0.0".to_string()));
    assert!(add_summary.contains("Dependencies updated"));
    assert!(add_summary.contains("is-number@7.0.0"));

    let remove_summary = render_deps_summary(&DepsCommand::Remove("is-number".to_string()));
    assert!(remove_summary.contains("Dependencies updated"));
    assert!(remove_summary.contains("is-number"));

    let update_filtered = render_deps_summary(&DepsCommand::Update(Some("is-number".to_string())));
    assert!(update_filtered.contains("Dependencies updated"));
    assert!(update_filtered.contains("is-number"));

    let update_unfiltered = render_deps_summary(&DepsCommand::Update(None));
    assert_eq!(update_unfiltered, "Dependencies updated.");
}

#[test]
fn test_render_check_summary_includes_a11y_scope_note() {
    let summary = render_check_summary();
    assert!(summary.contains(A11Y_SCOPE_NOTE));
    assert!(summary.contains("WCAG"));
    assert!(summary.contains("Validation succeeded"));
}

#[test]
fn test_render_init_summary_with_fallback_reason() {
    let summary = render_init_summary(
        "WDA Minimal",
        Some("Online Design System resolution is unavailable in this build"),
    );
    assert!(summary.contains("WDA Minimal"));
    assert!(summary.contains("Online Design System resolution is unavailable in this build"));
    assert!(summary.contains("Design System: WDA Minimal"));
    assert!(summary.contains("Note: Online Design System resolution is unavailable in this build"));
}

#[test]
fn test_render_init_summary_without_fallback_reason() {
    let summary = render_init_summary("Spectrum", None);
    assert!(summary.contains("Spectrum"));
    assert!(summary.contains("Design System: Spectrum"));
    assert!(!summary.contains("Note:"));
}

#[test]
fn test_render_build_summary_reports_http_limitation() {
    let path = "/projects/site/dist";
    let summary = render_build_summary(path, true);
    assert!(summary.contains(path));
    assert!(summary.contains("HTTP server required"));
    assert!(summary.contains("file:// will not work"));
}

#[test]
fn test_render_build_summary_does_not_guarantee_file_urls() {
    let summary = render_build_summary("dist", false);
    assert!(summary.contains("No known HTTP requirement was detected"));
    assert!(summary.contains("dist"));
    assert!(!summary.contains("file://"));
}

#[test]
fn build_summary_is_exact() {
    assert_eq!(
        render_build_summary("/p/dist", false),
        "Build succeeded.\nOutput: /p/dist\nNo known HTTP requirement was detected."
    );
}
