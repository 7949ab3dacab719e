use wda_core::deps::{manifest_source_of_text, removal_outcome, CommitOutcome, ManifestSource, StagedFiles};
use wda_core::json::JsonValue;
use wda_core::scripts::lock_of_bytes;
use wda_core::tokens::{emit_token_stylesheet, format_css_custom_property, parse_token_file, to_kebab_case, token_strings};

fn resolve_all(root: &JsonValue, pairs: &[(&str, &str)]) -> Vec<(String, String)> {
    token_strings(root)
        .into_iter()
        .map(|s| {
            let r = pairs.iter().find(|(k, _)| *k == s).map(|(_, v)| v.to_string()).unwrap_or(s.clone());
            (s, r)
        })
        .collect()
}

#[test]
fn test_empty_tokens_returns_empty_root_block() {
    let val = parse_token_file("{}").unwrap();
    let css = emit_token_stylesheet(&val, &vec![]);
    assert_eq!(css, ":root {\n}\n");
}

#[test]
fn test_emitter_renders_expected_properties_and_is_deterministic() {
    let content = r##"{
  "color": {
    "$type": "color",
    "background": {
      "page": { "$value": "#ffffff" },
      "surface": { "$value": "#f8fafc" }
    },
    "brand": { "primary": { "$value": "#2563eb" } }
  },
  "lineHeight": { "$type": "lineHeight", "tight": { "$value": 1.25 } },
  "spacing": { "$type": "dimension", "md": { "$value": "1rem" } }
}"##;
    let val = parse_token_file(content).unwrap();
    let css1 = emit_token_stylesheet(&val, &resolve_all(&val, &[]));
    let css2 = emit_token_stylesheet(&val, &resolve_all(&val, &[]));
    assert_eq!(css1, css2);
    assert_eq!(css1.as_bytes(), css2.as_bytes());
    assert!(css1.contains("  --color-background-page: #ffffff;\n"));
    assert!(css1.contains("  --color-background-surface: #f8fafc;\n"));
    assert!(css1.contains("  --color-brand-primary: #2563eb;\n"));
    assert!(css1.contains("  --line-height-tight: 1.25;\n"));
    assert!(css1.contains("  --spacing-md: 1rem;\n"));
    assert_eq!(
        css1,
        ":root {\n  --color-background-page: #ffffff;\n  --color-background-surface: #f8fafc;\n  --color-brand-primary: #2563eb;\n  --line-height-tight: 1.25;\n  --spacing-md: 1rem;\n}\n"
    );
}

#[test]
fn test_emitter_resolves_aliases_and_chained_aliases() {
    let content = r##"{
  "color": {
    "base": { "blue": { "$value": "#0000ff" } },
    "brand": { "primary": { "$value": "{color.base.blue}" } },
    "accent": { "$value": "{color.brand.primary}" }
  }
}"##;
    let val = parse_token_file(content).unwrap();
    let resolved = resolve_all(&val, &[("{color.base.blue}", "#0000ff"), ("{color.brand.primary}", "#0000ff")]);
    let css = emit_token_stylesheet(&val, &resolved);
    assert!(css.contains("  --color-base-blue: #0000ff;\n"));
    assert!(css.contains("  --color-brand-primary: #0000ff;\n"));
    assert!(css.contains("  --color-accent: #0000ff;\n"));
}

#[test]
fn token_values_of_every_kind() {
    let val = parse_token_file(r#"{"a": {"$value": ["x", 2, true]}, "b": false, "c": null, "d": {"$type": "t"}}"#).unwrap();
    let css = emit_token_stylesheet(&val, &vec![("x".to_string(), "y".to_string())]);
    assert_eq!(css, ":root {\n  --a: y, 2, true;\n  --b: false;\n  --c: ;\n}\n");
    assert_eq!(token_strings(&val), vec!["x".to_string()]);
}

#[test]
fn kebab_case_names() {
    assert_eq!(to_kebab_case("lineHeight"), "line-height");
    assert_eq!(to_kebab_case("font_size base"), "font-size-base");
    assert_eq!(to_kebab_case("HTMLColor"), "htmlcolor");
    assert_eq!(to_kebab_case("size2Xl"), "size2-xl");
    assert_eq!(to_kebab_case("_x"), "x");
    assert_eq!(
        format_css_custom_property(&vec!["color".to_string(), "".to_string(), "brandPrimary".to_string()]),
        "--color-brand-primary"
    );
}

#[test]
fn parsing_feeds_the_manifest_and_the_lock() {
    match manifest_source_of_text("{\"dependencies\":{}}") {
        ManifestSource::Parsed(Ok(JsonValue::Object(ms))) => assert_eq!(ms.len(), 1),
        other => panic!("unexpected {:?}", other),
    }
    assert!(matches!(manifest_source_of_text("{"), ManifestSource::Parsed(Err(_))));
    assert!(lock_of_bytes(Some(&b"{\"specifiers\":{}}".to_vec())).is_some());
    assert!(lock_of_bytes(Some(&b"not json".to_vec())).is_none());
    assert!(lock_of_bytes(None).is_none());
}

#[test]
fn removal_outcome_reads_the_staged_manifest() {
    let empty = StagedFiles { package_json: "{\"dependencies\":{}}".to_string(), deno_lock: Some("l".to_string()) };
    assert_eq!(removal_outcome(&empty).unwrap(), CommitOutcome::Empty);
    let one = StagedFiles { package_json: "{\"dependencies\":{\"a\":\"1\"}}".to_string(), deno_lock: None };
    assert_eq!(
        removal_outcome(&one).unwrap(),
        CommitOutcome::NonEmpty { package_json: one.package_json.clone(), deno_lock: None }
    );
    assert!(removal_outcome(&StagedFiles { package_json: "[".to_string(), deno_lock: None })
        .unwrap_err()
        .message
        .starts_with("Failed to parse staged package.json: "));
}
