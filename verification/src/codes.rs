//! Diagnostic code registry.
//!
//! Diagnostic codes are the only stable machine-facing identifier. Every code
//! follows the scheme `wda.<area>.<condition>`.

use vstd::prelude::*;

verus! {

pub const COMMAND_NOT_IMPLEMENTED: &'static str = "wda.command.not-implemented";
pub const CLI_JSON_NOT_SUPPORTED: &'static str = "wda.cli.json-not-supported";
pub const CLI_USAGE: &'static str = "wda.cli.usage";
pub const CONTRACT_MISSING: &'static str = "wda.contract.missing";
pub const CONTRACT_MALFORMED_JSON: &'static str = "wda.contract.malformed-json";
pub const CONTRACT_UNKNOWN_FIELD: &'static str = "wda.contract.unknown-field";
pub const CONTRACT_SCHEMA_VIOLATION: &'static str = "wda.contract.schema-violation";
pub const DOCS_REQUIRED_DOCUMENT_MISSING: &'static str = "wda.docs.required-document-missing";
pub const DOCS_FRONT_MATTER_MISSING: &'static str = "wda.docs.front-matter-missing";
pub const DOCS_FRONT_MATTER_MALFORMED: &'static str = "wda.docs.front-matter-malformed";
pub const DOCS_FRONT_MATTER_FIELD_INVALID: &'static str = "wda.docs.front-matter-field-invalid";
pub const DOCS_SOURCE_REF_UNRESOLVABLE: &'static str = "wda.docs.source-ref-unresolvable";
pub const DOCS_SOURCE_REF_ESCAPES_ROOT: &'static str = "wda.docs.source-ref-escapes-root";
pub const HTML_LANG_MISSING: &'static str = "wda.html.lang-missing";
pub const HTML_IMG_ALT_MISSING: &'static str = "wda.html.img-alt-missing";
pub const HTML_DUPLICATE_ID: &'static str = "wda.html.duplicate-id";
pub const TOKENS_MALFORMED_JSON: &'static str = "wda.tokens.malformed-json";
pub const TOKENS_VALUE_MISSING: &'static str = "wda.tokens.value-missing";
pub const TOKENS_TYPE_UNRESOLVABLE: &'static str = "wda.tokens.type-unresolvable";
pub const TOKENS_ALIAS_UNRESOLVABLE: &'static str = "wda.tokens.alias-unresolvable";
pub const TOOL_FAULT: &'static str = "wda.tool.fault";
pub const INIT_TOOL_UNAVAILABLE: &'static str = "wda.init.tool-unavailable";
pub const INIT_PATH_CONFLICT: &'static str = "wda.init.path-conflict";
pub const INIT_GIT_IDENTITY_FALLBACK: &'static str = "wda.init.git-identity-fallback";
pub const BUILD_TOKENS_CSS_IN_SOURCE: &'static str = "wda.build.tokens-css-in-source";
pub const BUILD_INCLUDE_UNRESOLVABLE: &'static str = "wda.build.include-unresolvable";
pub const BUILD_INCLUDE_ESCAPES_ROOT: &'static str = "wda.build.include-escapes-root";
pub const BUILD_INCLUDE_CYCLE: &'static str = "wda.build.include-cycle";
pub const BUILD_TYPE_ERROR: &'static str = "wda.build.type-error";
pub const BUILD_TOOL_UNAVAILABLE: &'static str = "wda.build.tool-unavailable";
pub const BUILD_SECRET_PATH_REFERENCED: &'static str = "wda.build.secret-path-referenced";
pub const BUILD_REFERENCE_UNRESOLVABLE: &'static str = "wda.build.reference-unresolvable";
pub const BUILD_UNREFERENCED_ASSET: &'static str = "wda.build.unreferenced-asset";
pub const BUILD_OUTPUT_PATH_COLLISION: &'static str = "wda.build.output-path-collision";
pub const BUILD_DEPENDENCY_UNLOCKED: &'static str = "wda.build.dependency-unlocked";

/// Every diagnostic code of the registry, in registry order.
pub const ALL_CODES: [&'static str; 35] = [
    COMMAND_NOT_IMPLEMENTED,
    CLI_JSON_NOT_SUPPORTED,
    CLI_USAGE,
    CONTRACT_MISSING,
    CONTRACT_MALFORMED_JSON,
    CONTRACT_UNKNOWN_FIELD,
    CONTRACT_SCHEMA_VIOLATION,
    DOCS_REQUIRED_DOCUMENT_MISSING,
    DOCS_FRONT_MATTER_MISSING,
    DOCS_FRONT_MATTER_MALFORMED,
    DOCS_FRONT_MATTER_FIELD_INVALID,
    DOCS_SOURCE_REF_UNRESOLVABLE,
    DOCS_SOURCE_REF_ESCAPES_ROOT,
    HTML_LANG_MISSING,
    HTML_IMG_ALT_MISSING,
    HTML_DUPLICATE_ID,
    TOKENS_MALFORMED_JSON,
    TOKENS_VALUE_MISSING,
    TOKENS_TYPE_UNRESOLVABLE,
    TOKENS_ALIAS_UNRESOLVABLE,
    TOOL_FAULT,
    INIT_TOOL_UNAVAILABLE,
    INIT_PATH_CONFLICT,
    INIT_GIT_IDENTITY_FALLBACK,
    BUILD_TOKENS_CSS_IN_SOURCE,
    BUILD_INCLUDE_UNRESOLVABLE,
    BUILD_INCLUDE_ESCAPES_ROOT,
    BUILD_INCLUDE_CYCLE,
    BUILD_TYPE_ERROR,
    BUILD_TOOL_UNAVAILABLE,
    BUILD_SECRET_PATH_REFERENCED,
    BUILD_REFERENCE_UNRESOLVABLE,
    BUILD_UNREFERENCED_ASSET,
    BUILD_OUTPUT_PATH_COLLISION,
    BUILD_DEPENDENCY_UNLOCKED,
];

} // verus!
