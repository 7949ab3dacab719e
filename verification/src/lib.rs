//! Verified core of Web Design Anchor: diagnostics, command-line parsing,
//! source-to-`dist/` layout rules, reference extraction and rewriting,
//! `<wda-include>` expansion, script dependency checks and the dependency
//! commit protocol.

pub mod text;
pub mod codes;
pub mod diagnostics;
pub mod cli;
pub mod layout;
pub mod css;
pub mod project;
pub mod html;
pub mod ids;
pub mod expand;
pub mod pages;
pub mod report;
pub mod json;
pub mod scripts;
pub mod entries;
pub mod tools;
pub mod deps;
pub mod commit;
pub mod staging;
pub mod resolve;
pub mod dist;
pub mod toolchain;
pub mod pipeline;
pub mod criteria;
pub mod secrecy;
pub mod tokens;
