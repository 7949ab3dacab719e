//! Starting the confined `deno` runs of the dependency commands, and
//! resolving `deno` for them.

use vstd::prelude::*;

use crate::codes;
use crate::diagnostics::{diagnostic_view, Diagnostic, Severity};
use crate::layout::{trim_chars, trimmed};
use crate::pages::texts;
use crate::staging::{staged_step_view, StagedAction, StagedPhase, StagedRun, StagedStep};
use crate::text::{chars_of, string_from_chars};
use crate::tools::{first_true, resolve_tool_with, tool_candidate_paths, tool_diagnostic, tool_resolution, ToolLaunch};

verus! {

/// Resolves `deno` for the dependency commands (see
/// [`crate::tools::tool_resolution`]): failures are tool faults.
pub fn resolve_deno(path_dirs: &Vec<String>, executable: &Vec<bool>, launch: Option<&ToolLaunch>) -> (r: Result<
    String,
    Diagnostic,
>)
    requires
        first_true(executable@) is Some ==> launch is Some,
        first_true(executable@) matches Some(i) ==> i < tool_candidate_paths("deno"@, texts(path_dirs@)).len(),
    ensures
        match (r, tool_resolution(
            codes::TOOL_FAULT@,
            "deno"@,
            texts(path_dirs@),
            executable@,
            match launch {
                Some(l) => Some(*l),
                None => None,
            },
        )) {
            (Ok(p), Ok(q)) => p@ == q,
            (Err(d), Err(e)) => diagnostic_view(d) == e,
            _ => false,
        },
{
    proof {
        reveal_strlit("deno");
        crate::layout::lemma_trimmed_plain("deno"@);
    }
    resolve_tool_with(codes::TOOL_FAULT, "deno", path_dirs, executable, launch)
}

/// Starts `deno` with `args`, confined to the stage directory `stage`, for
/// the project at `project_root` (see [`StagedRun`]).
pub fn invoke_staged_deno(project_root: &str, args: Vec<String>, stage: &str) -> (r: (StagedRun, StagedAction))
    ensures
        r.0.project_root@ == project_root@,
        r.0.stage@ == stage@,
        r.0.args == args,
        r.0.phase == StagedPhase::ResolvingDeno,
        staged_step_view(r.1) == StagedStep::ResolveDeno,
{
    StagedRun::new(project_root, stage, args)
}

fn start(project_root: &str, stage: &str, a: &str, b: &str, t: &Vec<char>) -> (r: (StagedRun, StagedAction))
    ensures
        r.0.project_root@ == project_root@,
        r.0.stage@ == stage@,
        texts(r.0.args@) == seq![a@, b@, t@],
        r.0.phase == StagedPhase::ResolvingDeno,
        staged_step_view(r.1) == StagedStep::ResolveDeno,
{
    let mut args: Vec<String> = Vec::new();
    args.push(a.to_string());
    args.push(b.to_string());
    args.push(string_from_chars(t));
    assert(texts(args@) =~= seq![a@, b@, t@]);
    StagedRun::new(project_root, stage, args)
}

/// Starts the staged `deno add --package-json <spec>` (the specification
/// trimmed); an empty specification is a tool fault.
pub fn resolve_add(project_root: &str, spec: &str, stage: &str) -> (r: Result<(StagedRun, StagedAction), Diagnostic>)
    ensures
        trimmed(spec@).len() == 0 <==> r is Err,
        r matches Err(d) ==> diagnostic_view(d) == tool_diagnostic(
            codes::TOOL_FAULT@,
            "Dependency specification cannot be empty"@,
            "Specify a valid package name or dependency specifier"@,
        ),
        r matches Ok((m, a)) ==> m.project_root@ == project_root@ && m.stage@ == stage@ && texts(m.args@)
            == seq!["add"@, "--package-json"@, trimmed(spec@)] && m.phase == StagedPhase::ResolvingDeno
            && staged_step_view(a) == StagedStep::ResolveDeno,
{
    let t = trim_chars(&chars_of(spec));
    if t.len() == 0 {
        return Err(
            Diagnostic::new(
                codes::TOOL_FAULT,
                Severity::Error,
                None,
                "Dependency specification cannot be empty",
                "Specify a valid package name or dependency specifier",
            ),
        );
    }
    Ok(start(project_root, stage, "add", "--package-json", &t))
}

/// Starting the staged `deno add`: [`resolve_add`].
pub fn add(project_root: &str, spec: &str, stage: &str) -> (r: Result<(StagedRun, StagedAction), Diagnostic>)
    ensures
        trimmed(spec@).len() == 0 <==> r is Err,
        r matches Err(d) ==> diagnostic_view(d) == tool_diagnostic(
            codes::TOOL_FAULT@,
            "Dependency specification cannot be empty"@,
            "Specify a valid package name or dependency specifier"@,
        ),
        r matches Ok((m, a)) ==> m.project_root@ == project_root@ && m.stage@ == stage@ && texts(m.args@)
            == seq!["add"@, "--package-json"@, trimmed(spec@)] && m.phase == StagedPhase::ResolvingDeno
            && staged_step_view(a) == StagedStep::ResolveDeno,
{
    resolve_add(project_root, spec, stage)
}

/// Starts the staged `deno remove --package-json <name>` (the name
/// trimmed); an empty name is a tool fault. Whether the result is the empty
/// state is the caller's decision.
pub fn resolve_remove(project_root: &str, name: &str, stage: &str) -> (r: Result<(StagedRun, StagedAction), Diagnostic>)
    ensures
        trimmed(name@).len() == 0 <==> r is Err,
        r matches Err(d) ==> diagnostic_view(d) == tool_diagnostic(
            codes::TOOL_FAULT@,
            "Dependency name cannot be empty"@,
            "Specify a valid dependency name to remove"@,
        ),
        r matches Ok((m, a)) ==> m.project_root@ == project_root@ && m.stage@ == stage@ && texts(m.args@)
            == seq!["remove"@, "--package-json"@, trimmed(name@)] && m.phase == StagedPhase::ResolvingDeno
            && staged_step_view(a) == StagedStep::ResolveDeno,
{
    let t = trim_chars(&chars_of(name));
    if t.len() == 0 {
        return Err(
            Diagnostic::new(
                codes::TOOL_FAULT,
                Severity::Error,
                None,
                "Dependency name cannot be empty",
                "Specify a valid dependency name to remove",
            ),
        );
    }
    Ok(start(project_root, stage, "remove", "--package-json", &t))
}

/// Starting the staged `deno remove`: [`resolve_remove`].
pub fn remove(project_root: &str, name: &str, stage: &str) -> (r: Result<(StagedRun, StagedAction), Diagnostic>)
    ensures
        trimmed(name@).len() == 0 <==> r is Err,
        r matches Err(d) ==> diagnostic_view(d) == tool_diagnostic(
            codes::TOOL_FAULT@,
            "Dependency name cannot be empty"@,
            "Specify a valid dependency name to remove"@,
        ),
        r matches Ok((m, a)) ==> m.project_root@ == project_root@ && m.stage@ == stage@ && texts(m.args@)
            == seq!["remove"@, "--package-json"@, trimmed(name@)] && m.phase == StagedPhase::ResolvingDeno
            && staged_step_view(a) == StagedStep::ResolveDeno,
{
    resolve_remove(project_root, name, stage)
}

/// Starts the staged `deno update`, or `deno update <name>` for a filter
/// (trimmed); an empty filter name is a tool fault.
pub fn resolve_update(project_root: &str, name_filter: Option<&str>, stage: &str) -> (r: Result<
    (StagedRun, StagedAction),
    Diagnostic,
>)
    ensures
        (name_filter matches Some(f) && trimmed(f@).len() == 0) <==> r is Err,
        r matches Err(d) ==> diagnostic_view(d) == tool_diagnostic(
            codes::TOOL_FAULT@,
            "Dependency filter name cannot be empty"@,
            "Specify a valid dependency name to update or omit the filter"@,
        ),
        r matches Ok((m, a)) ==> m.project_root@ == project_root@ && m.stage@ == stage@ && texts(m.args@)
            == (match name_filter {
            Some(f) => seq!["update"@, trimmed(f@)],
            None => seq!["update"@],
        }) && m.phase == StagedPhase::ResolvingDeno && staged_step_view(a) == StagedStep::ResolveDeno,
{
    let mut args: Vec<String> = Vec::new();
    args.push("update".to_string());
    match name_filter {
        Some(f) => {
            let t = trim_chars(&chars_of(f));
            if t.len() == 0 {
                return Err(
                    Diagnostic::new(
                        codes::TOOL_FAULT,
                        Severity::Error,
                        None,
                        "Dependency filter name cannot be empty",
                        "Specify a valid dependency name to update or omit the filter",
                    ),
                );
            }
            args.push(string_from_chars(&t));
            assert(texts(args@) =~= seq!["update"@, t@]);
        },
        None => {
            assert(texts(args@) =~= seq!["update"@]);
        },
    }
    Ok(StagedRun::new(project_root, stage, args))
}

/// Starting the staged `deno update`: [`resolve_update`].
pub fn update(project_root: &str, name_filter: Option<&str>, stage: &str) -> (r: Result<
    (StagedRun, StagedAction),
    Diagnostic,
>)
    ensures
        (name_filter matches Some(f) && trimmed(f@).len() == 0) <==> r is Err,
        r matches Err(d) ==> diagnostic_view(d) == tool_diagnostic(
            codes::TOOL_FAULT@,
            "Dependency filter name cannot be empty"@,
            "Specify a valid dependency name to update or omit the filter"@,
        ),
        r matches Ok((m, a)) ==> m.project_root@ == project_root@ && m.stage@ == stage@ && texts(m.args@)
            == (match name_filter {
            Some(f) => seq!["update"@, trimmed(f@)],
            None => seq!["update"@],
        }) && m.phase == StagedPhase::ResolvingDeno && staged_step_view(a) == StagedStep::ResolveDeno,
{
    resolve_update(project_root, name_filter, stage)
}

} // verus!
