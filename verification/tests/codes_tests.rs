use wda_core::codes::ALL_CODES;

#[test]
fn test_diagnostic_code_registry() {
    let expected_codes = [
        "wda.command.not-implemented",
        "wda.cli.json-not-supported",
        "wda.cli.usage",
        "wda.contract.missing",
        "wda.contract.malformed-json",
        "wda.contract.unknown-field",
        "wda.contract.schema-violation",
        "wda.docs.required-document-missing",
        "wda.docs.front-matter-missing",
        "wda.docs.front-matter-malformed",
        "wda.docs.front-matter-field-invalid",
        "wda.docs.source-ref-unresolvable",
        "wda.docs.source-ref-escapes-root",
        "wda.html.lang-missing",
        "wda.html.img-alt-missing",
        "wda.html.duplicate-id",
        "wda.tokens.malformed-json",
        "wda.tokens.value-missing",
        "wda.tokens.type-unresolvable",
        "wda.tokens.alias-unresolvable",
        "wda.tool.fault",
        "wda.init.tool-unavailable",
        "wda.init.path-conflict",
        "wda.init.git-identity-fallback",
        "wda.build.tokens-css-in-source",
        "wda.build.include-unresolvable",
        "wda.build.include-escapes-root",
        "wda.build.include-cycle",
        "wda.build.type-error",
        "wda.build.tool-unavailable",
        "wda.build.secret-path-referenced",
        "wda.build.reference-unresolvable",
        "wda.build.unreferenced-asset",
        "wda.build.output-path-collision",
        "wda.build.dependency-unlocked",
    ];
    assert_eq!(ALL_CODES.len(), 35);
    assert_eq!(ALL_CODES.len(), expected_codes.len());
    for (i, code) in expected_codes.iter().enumerate() {
        assert_eq!(ALL_CODES[i], *code);
    }
}
