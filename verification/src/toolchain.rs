//! The build's use of `deno`: resolving it, the diagnostics of
//! `deno install --frozen` and of the type-check, and the transformation of
//! script entries with esbuild, step by step.

use vstd::prelude::*;

use crate::codes;
use crate::diagnostics::{
    add_fresh, diagnostic_view, diagnostic_views, join, join_with_slash, numbered_from, sorted_views, views,
    Diagnostic, DiagnosticView, Location, Severity, ValidationReport,
};
use crate::layout::{dist_components, dist_components_of, trim_chars, trimmed};
use crate::entries::{discover_script_entries, script_entries};
use crate::pages::{string_pairs, texts};
use crate::project::ProjectTree;
use crate::scripts::{rewrite_workspace_paths, workspace_paths_rewritten};
use crate::staging::DenoOutput;
use crate::text::{append_chars, append_str, chars_of, lit, string_from_chars};
use vstd::utf8::encode_utf8;
use crate::tools::{first_true, join_path, path_join, resolve_tool_with, tool_candidate_paths, tool_resolution, ToolLaunch};

verus! {

// ---------------------------------------------------------------------------
// Resolving tools
// ---------------------------------------------------------------------------

/// Resolves a tool for the build (see [`crate::tools::tool_resolution`]):
/// failures are `wda.build.tool-unavailable` errors.
pub fn resolve_tool(tool_name: &str, path_dirs: &Vec<String>, executable: &Vec<bool>, launch: Option<&ToolLaunch>) -> (r:
    Result<String, Diagnostic>)
    requires
        first_true(executable@) is Some ==> launch is Some,
        first_true(executable@) matches Some(i) ==> i < tool_candidate_paths(trimmed(tool_name@), texts(path_dirs@)).len(),
    ensures
        match (r, tool_resolution(
            codes::BUILD_TOOL_UNAVAILABLE@,
            tool_name@,
            texts(path_dirs@),
            executable@,
            match launch {
                Some(l) => Some(*l),
                None => None,
            },
        )) {
            (Ok(p), Ok(q)) => p@ == q,
            (Err(d), Err(e)) => diagnostic_view(d) == e,
            _ => false,
        },
{
    resolve_tool_with(codes::BUILD_TOOL_UNAVAILABLE, tool_name, path_dirs, executable, launch)
}

/// Resolves `deno` for the build: [`resolve_tool`] of `deno`.
pub fn resolve_deno(path_dirs: &Vec<String>, executable: &Vec<bool>, launch: Option<&ToolLaunch>) -> (r: Result<
    String,
    Diagnostic,
>)
    requires
        first_true(executable@) is Some ==> launch is Some,
        first_true(executable@) matches Some(i) ==> i < tool_candidate_paths("deno"@, texts(path_dirs@)).len(),
    ensures
        match (r, tool_resolution(
            codes::BUILD_TOOL_UNAVAILABLE@,
            "deno"@,
            texts(path_dirs@),
            executable@,
            match launch {
                Some(l) => Some(*l),
                None => None,
            },
        )) {
            (Ok(p), Ok(q)) => p@ == q,
            (Err(d), Err(e)) => diagnostic_view(d) == e,
            _ => false,
        },
{
    proof {
        reveal_strlit("deno");
        crate::layout::lemma_trimmed_plain("deno"@);
    }
    resolve_tool("deno", path_dirs, executable, launch)
}

// ---------------------------------------------------------------------------
// `deno install --frozen`
// ---------------------------------------------------------------------------

/// The next action shared by the dependency-lock diagnostics.
pub open spec fn update_graph() -> Seq<char> {
    "Run `wda deps` to update the dependency graph, then run the build again"@
}

/// An error of the build, with no location.
pub open spec fn build_error(code: Seq<char>, message: Seq<char>, next_action: Seq<char>, location: Option<Seq<char>>) -> DiagnosticView {
    DiagnosticView {
        code,
        severity: Severity::Error,
        location: match location {
            Some(p) => Some((p, None, None)),
            None => None,
        },
        message,
        next_action,
        ordinal: 0,
    }
}

/// What `deno install --frozen` in the workspace reports: nothing on
/// success, else a `wda.build.dependency-unlocked` error carrying its
/// standard error.
pub open spec fn install_report(ran: Result<DenoOutput, String>) -> Option<DiagnosticView> {
    match ran {
        Err(e) => Some(
            build_error(
                codes::BUILD_DEPENDENCY_UNLOCKED@,
                "`deno install --frozen` could not be started: "@ + e@,
                update_graph(),
                None,
            ),
        ),
        Ok(out) => if out.success {
            None
        } else if trimmed(out.stderr@).len() == 0 {
            Some(
                build_error(
                    codes::BUILD_DEPENDENCY_UNLOCKED@,
                    "`deno install --frozen` failed in the build workspace with status "@ + out.status@,
                    update_graph(),
                    None,
                ),
            )
        } else {
            Some(
                build_error(
                    codes::BUILD_DEPENDENCY_UNLOCKED@,
                    "`deno install --frozen` failed in the build workspace: "@ + trimmed(out.stderr@),
                    update_graph(),
                    None,
                ),
            )
        },
    }
}

fn error_at(code: &'static str, message: &Vec<char>, next_action: &str, location: Option<&str>) -> (r: Diagnostic)
    ensures
        diagnostic_view(r) == build_error(
            code@,
            message@,
            next_action@,
            match location {
                Some(p) => Some(p@),
                None => None,
            },
        ),
{
    let m = string_from_chars(message);
    let loc = match location {
        Some(p) => Some(Location::path_only(p)),
        None => None,
    };
    Diagnostic::new(code, Severity::Error, loc, m.as_str(), next_action)
}

/// Decides what `deno install --frozen` reported (see [`install_report`]).
pub fn install_outcome(ran: &Result<DenoOutput, String>) -> (r: Option<Diagnostic>)
    ensures
        match (r, install_report(*ran)) {
            (Some(d), Some(v)) => diagnostic_view(d) == v,
            (None, None) => true,
            _ => false,
        },
{
    match ran {
        Err(e) => {
            let mut m = lit("`deno install --frozen` could not be started: ");
            append_str(&mut m, e.as_str());
            Some(error_at(codes::BUILD_DEPENDENCY_UNLOCKED, &m, "Run `wda deps` to update the dependency graph, then run the build again", None))
        },
        Ok(out) => {
            if out.success {
                return None;
            }
            let stderr = trim_chars(&chars_of(out.stderr.as_str()));
            let m = if stderr.len() == 0 {
                let mut m = lit("`deno install --frozen` failed in the build workspace with status ");
                append_str(&mut m, out.status.as_str());
                m
            } else {
                let mut m = lit("`deno install --frozen` failed in the build workspace: ");
                append_chars(&mut m, &stderr);
                m
            };
            Some(error_at(codes::BUILD_DEPENDENCY_UNLOCKED, &m, "Run `wda deps` to update the dependency graph, then run the build again", None))
        },
    }
}

// ---------------------------------------------------------------------------
// Type-checking
// ---------------------------------------------------------------------------

/// The arguments of `deno check` over the entries, inside the workspace:
/// its own `deno.json`, the frozen lock, each entry inside the workspace.
pub open spec fn check_arguments(workspace: Seq<char>, entries: Seq<Seq<char>>) -> Seq<Seq<char>> {
    seq!["check"@, "--config"@, path_join(workspace, "deno.json"@), "--frozen"@] + entries.map_values(
        |e: Seq<char>| path_join(workspace, e),
    )
}

/// The arguments of `deno check` (see [`check_arguments`]).
pub fn check_command_args(workspace: &str, entries: &Vec<String>) -> (r: Vec<String>)
    ensures
        texts(r@) == check_arguments(workspace@, texts(entries@)),
{
    let mut out: Vec<String> = Vec::new();
    out.push("check".to_string());
    out.push("--config".to_string());
    out.push(join_path(workspace, "deno.json"));
    out.push("--frozen".to_string());
    let ghost head = texts(out@);
    assert(head =~= seq!["check"@, "--config"@, path_join(workspace@, "deno.json"@), "--frozen"@]);
    let ghost es = texts(entries@);
    let mut i: usize = 0;
    while i < entries.len()
        invariant
            i <= entries@.len(),
            es == texts(entries@),
            texts(out@) == head + es.take(i as int).map_values(|e: Seq<char>| path_join(workspace@, e)),
        decreases entries@.len() - i,
    {
        let ghost before = texts(out@);
        out.push(join_path(workspace, entries[i].as_str()));
        assert(texts(out@) =~= before.push(path_join(workspace@, es[i as int])));
        assert(es.take(i + 1).map_values(|e: Seq<char>| path_join(workspace@, e)) =~= es.take(i as int).map_values(
            |e: Seq<char>| path_join(workspace@, e),
        ).push(path_join(workspace@, es[i as int])));
        i = i + 1;
    }
    assert(es.take(entries@.len() as int) == es);
    out
}

/// What the type-check reports: nothing on success; else a
/// `wda.build.type-error`, located at the first entry when it ran, with its
/// standard error (workspace paths turned into project paths).
pub open spec fn type_check_report(
    ran: Result<DenoOutput, String>,
    workspace: Seq<char>,
    root: Seq<char>,
    canonical: Option<Seq<char>>,
    entries: Seq<Seq<char>>,
) -> Option<DiagnosticView> {
    match ran {
        Err(e) => Some(
            build_error(
                codes::BUILD_TYPE_ERROR@,
                "Deno type-check could not be started: "@ + e@,
                "Ensure the resolved deno executable can be run"@,
                None,
            ),
        ),
        Ok(out) => if out.success {
            None
        } else {
            let stderr = workspace_paths_rewritten(trimmed(out.stderr@), workspace, root, canonical);
            Some(
                build_error(
                    codes::BUILD_TYPE_ERROR@,
                    if stderr.len() == 0 {
                        "Deno type-check failed with status "@ + out.status@
                    } else {
                        "Deno type-check failed: "@ + stderr
                    },
                    "Fix the TypeScript diagnostics and run the build again"@,
                    if entries.len() > 0 {
                        Some(entries[0])
                    } else {
                        None
                    },
                ),
            )
        },
    }
}

/// Decides what the type-check reported (see [`type_check_report`]);
/// `canonical` is the workspace path as the file system resolves it, when
/// it can.
pub fn type_check_outcome(
    ran: &Result<DenoOutput, String>,
    workspace: &str,
    root: &str,
    canonical: Option<&str>,
    entries: &Vec<String>,
) -> (r: Option<Diagnostic>)
    ensures
        match (r, type_check_report(
            *ran,
            workspace@,
            root@,
            match canonical {
                Some(c) => Some(c@),
                None => None,
            },
            texts(entries@),
        )) {
            (Some(d), Some(v)) => diagnostic_view(d) == v,
            (None, None) => true,
            _ => false,
        },
{
    match ran {
        Err(e) => {
            let mut m = lit("Deno type-check could not be started: ");
            append_str(&mut m, e.as_str());
            Some(error_at(codes::BUILD_TYPE_ERROR, &m, "Ensure the resolved deno executable can be run", None))
        },
        Ok(out) => {
            if out.success {
                return None;
            }
            let trimmed_err = string_from_chars(&trim_chars(&chars_of(out.stderr.as_str())));
            let stderr = rewrite_workspace_paths(trimmed_err.as_str(), workspace, root, canonical);
            let se = chars_of(stderr.as_str());
            let m = if se.len() == 0 {
                let mut m = lit("Deno type-check failed with status ");
                append_str(&mut m, out.status.as_str());
                m
            } else {
                let mut m = lit("Deno type-check failed: ");
                append_chars(&mut m, &se);
                m
            };
            if entries.len() > 0 {
                Some(error_at(codes::BUILD_TYPE_ERROR, &m, "Fix the TypeScript diagnostics and run the build again", Some(entries[0].as_str())))
            } else {
                Some(error_at(codes::BUILD_TYPE_ERROR, &m, "Fix the TypeScript diagnostics and run the build again", None))
            }
        },
    }
}

/// Where the type-check of the expanded pages (`(path, text)` pairs)
/// starts: `deno` is resolved first, even when no page names a script
/// entry, so a missing `deno` fails the stage rather than letting it pass
/// as skipped. With `deno` and no entry there is nothing to check; with
/// entries, `deno` checks them.
pub fn type_check_plan(deno: Result<String, Diagnostic>, tree: &ProjectTree, pages: &Vec<(String, String)>) -> (r:
    Result<Option<(String, Vec<String>)>, Diagnostic>)
    requires
        forall|i: int| 0 <= i < pages@.len() ==> encode_utf8((#[trigger] pages@[i]).1@).len() < usize::MAX,
    ensures
        match deno {
            Err(d) => r == Err::<Option<(String, Vec<String>)>, Diagnostic>(d),
            Ok(p) => {
                let entries = script_entries(tree.files@, string_pairs(pages@));
                if entries.len() == 0 {
                    r == Ok::<Option<(String, Vec<String>)>, Diagnostic>(None)
                } else {
                    r matches Ok(Some((q, es))) && q@ == p@ && texts(es@) == entries
                }
            },
        },
{
    match deno {
        Err(d) => Err(d),
        Ok(p) => {
            let entries = discover_script_entries(tree, pages);
            if entries.len() == 0 {
                Ok(None)
            } else {
                Ok(Some((p, entries)))
            }
        },
    }
}

/// Whatever stops `deno` from being resolved for the build (no name, not
/// found, failing to start), the diagnostic is an error with the code
/// `wda.build.tool-unavailable`.
pub proof fn law_unresolved_deno_is_unavailable_error(
    dirs: Seq<Seq<char>>,
    executable: Seq<bool>,
    launch: Option<ToolLaunch>,
    d: Diagnostic,
)
    requires
        tool_resolution(codes::BUILD_TOOL_UNAVAILABLE@, "deno"@, dirs, executable, launch) matches Err(e)
            && diagnostic_view(d) == e,
    ensures
        d.code@ == codes::BUILD_TOOL_UNAVAILABLE@,
        d.severity == Severity::Error,
{
}

/// The report of a type-check: its diagnostic, if any, alone.
pub fn type_check_scripts(outcome: Result<(), Diagnostic>) -> (r: ValidationReport)
    ensures
        match outcome {
            Ok(()) => r.diagnostics@.len() == 0,
            Err(d) => r.diagnostics@ == seq![crate::diagnostics::with_position(d, 0)],
        },
{
    let mut report = ValidationReport::new();
    match outcome {
        Ok(()) => {},
        Err(d) => {
            report.add(d);
            let ghost unsorted = report.diagnostics@;
            report.sort();
            proof {
                let e: Seq<Diagnostic> = seq![];
                assert(unsorted.drop_last() =~= e);
                assert(crate::diagnostics::sorted_diagnostics(e) == e);
                assert(crate::diagnostics::insert_sorted(e, unsorted.last()) == seq![unsorted.last()]);
                assert(crate::diagnostics::sorted_diagnostics(unsorted) == seq![unsorted.last()]);
            }
        },
    }
    report
}

} // verus!
