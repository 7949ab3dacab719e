//! The build pipeline, step by step: the gates that stop it with a report,
//! the order of its stages, and the assembly of the output in a staging
//! directory that replaces `dist/` only when complete. The caller performs
//! each requested operation (a check, a `deno` run, a file operation) and
//! hands back how it went.

use vstd::prelude::*;

use crate::deps::fault_is;
use crate::diagnostics::{
    diagnostic_view, diagnostic_views, has_error_in, has_error_view, numbered_from, sorted_diagnostics, sorted_views,
    Diagnostic, DiagnosticView, ToolFault, ValidationReport,
};
use crate::dist::{DistAction, DistEvent, DistReplace};
use crate::expand::{expand_includes_for_page, page_expansion};
use crate::json::JsonValue;
use crate::pages::{discover_pages, discovered_pages, string_pairs, texts, OutputFile};
use crate::project::{file_index, lookup_key, texts_fit, ProjectFile, ProjectTree};
use crate::diagnostics::path_components;
use crate::staging::DenoOutput;
use crate::text::{append_str, chars_of, lit, string_from_chars};
use crate::diagnostics::join_with_slash;
use crate::layout::dist_components_of;
use crate::tools::{join_path, path_join};
use vstd::utf8::encode_utf8;

verus! {

/// The outcome of a build: the diagnostics, the path of `dist/`, and
/// whether the output needs an HTTP server.
#[derive(Debug, Clone, PartialEq, Eq)]
pub struct BuildReport {
    pub validation: ValidationReport,
    pub dist_path: String,
    pub needs_http: bool,
}

impl BuildReport {
    pub fn new(validation: ValidationReport, dist_path: String, needs_http: bool) -> (r: Self)
        ensures
            r.validation == validation,
            r.dist_path == dist_path,
            r.needs_http == needs_http,
    {
        BuildReport { validation, dist_path, needs_http }
    }
}

/// Appends the diagnostics of `other` and sorts.
pub fn extend_sorted(report: &mut ValidationReport, other: ValidationReport)
    ensures
        final(report).diagnostics@ == sorted_diagnostics(old(report).diagnostics@ + other.diagnostics@),
{
    let mut i: usize = 0;
    let ghost start = report.diagnostics@;
    while i < other.diagnostics.len()
        invariant
            i <= other.diagnostics@.len(),
            report.diagnostics@ == start + other.diagnostics@.take(i as int),
        decreases other.diagnostics@.len() - i,
    {
        report.diagnostics.push(other.diagnostics[i].clone_diagnostic());
        assert(start + other.diagnostics@.take(i + 1) =~= (start + other.diagnostics@.take(i as int)).push(
            other.diagnostics@[i as int],
        ));
        i = i + 1;
    }
    assert(other.diagnostics@.take(other.diagnostics@.len() as int) == other.diagnostics@);
    report.sort();
}

// ---------------------------------------------------------------------------
// The pages gate
// ---------------------------------------------------------------------------

/// The content the project tree holds for path `p`, if it holds the path.
pub open spec fn page_content(files: Seq<ProjectFile>, p: Seq<char>) -> Option<Result<String, String>> {
    let i = file_index(files, lookup_key(path_components(p)));
    if 0 <= i < files.len() {
        Some(files[i].content)
    } else {
        None
    }
}

/// The pages expanded in order: the expanded `(page, text)` pairs of the
/// pages whose includes all expanded, and the sorted include diagnostics of
/// the others; or the fault (message, path) of the first unreadable page.
pub open spec fn pages_gate(files: Seq<ProjectFile>, root: Seq<char>, pages: Seq<Seq<char>>) -> Result<
    (Seq<(Seq<char>, Seq<char>)>, Seq<DiagnosticView>),
    (Seq<char>, Seq<char>),
>
    decreases pages.len(),
{
    if pages.len() == 0 {
        Ok((seq![], seq![]))
    } else {
        match pages_gate(files, root, pages.drop_last()) {
            Err(f) => Err(f),
            Ok((exp, ds)) => {
                let p = pages.last();
                match page_content(files, p) {
                    Some(Err(e)) => Err(("Failed to read page '"@ + p + "': "@ + e@, path_join(root, p))),
                    Some(Ok(t)) => {
                        let (x, d) = page_expansion(files, t@, p);
                        let nd = numbered_from(d, 0);
                        if has_error_view(nd) {
                            Ok((exp, ds + sorted_views(nd)))
                        } else {
                            Ok((exp.push((p, x)), ds))
                        }
                    },
                    None => Ok((exp, ds)),
                }
            },
        }
    }
}

proof fn lemma_gate_err_stays(files: Seq<ProjectFile>, root: Seq<char>, pages: Seq<Seq<char>>, n: int)
    requires
        0 <= n <= pages.len(),
        pages_gate(files, root, pages.take(n)) is Err,
    ensures
        pages_gate(files, root, pages) == pages_gate(files, root, pages.take(n)),
    decreases pages.len() - n,
{
    if n < pages.len() {
        assert(pages.take(n + 1).drop_last() == pages.take(n));
        lemma_gate_err_stays(files, root, pages, n + 1);
    } else {
        assert(pages.take(n) == pages);
    }
}

/// Expands the include tags of the pages (see [`pages_gate`]).
pub fn expand_pages(tree: &ProjectTree, root: &str) -> (r: Result<(Vec<(String, String)>, ValidationReport), ToolFault>)
    requires
        texts_fit(tree.files@),
    ensures
        match (r, pages_gate(tree.files@, root@, discovered_pages(tree.files@))) {
            (Ok((exp, rep)), Ok((e, ds))) => string_pairs(exp@) == e && diagnostic_views(rep.diagnostics@) == ds,
            (Err(f), Err((m, p))) => fault_is(f, m, Some(p)),
            _ => false,
        },
{
    let pages = discover_pages(tree);
    let ghost ps = texts(pages@);
    let mut expanded: Vec<(String, String)> = Vec::new();
    let mut report = ValidationReport::new();
    assert(string_pairs(expanded@) =~= seq![]);
    assert(diagnostic_views(report.diagnostics@) =~= seq![]);
    let mut i: usize = 0;
    while i < pages.len()
        invariant
            i <= pages@.len(),
            ps == texts(pages@),
            ps == discovered_pages(tree.files@),
            texts_fit(tree.files@),
            pages_gate(tree.files@, root@, ps.take(i as int)) == Ok::<
                (Seq<(Seq<char>, Seq<char>)>, Seq<DiagnosticView>),
                (Seq<char>, Seq<char>),
            >((string_pairs(expanded@), diagnostic_views(report.diagnostics@))),
        decreases pages@.len() - i,
    {
        assert(ps.take(i + 1).drop_last() == ps.take(i as int));
        assert(ps.take(i + 1).last() == pages@[i as int]@);
        let p = chars_of(pages[i].as_str());
        let comps = crate::diagnostics::components_of(&p);
        match tree.find(&comps) {
            Some(idx) => {
                proof {
                    crate::project::lemma_file_index_range(tree.files@, lookup_key(path_components(p@)));
                }
                match &tree.files[idx].content {
                    Err(e) => {
                        let mut m = lit("Failed to read page '");
                        append_str(&mut m, pages[i].as_str());
                        append_str(&mut m, "': ");
                        append_str(&mut m, e.as_str());
                        let msg = string_from_chars(&m);
                        let at = join_path(root, pages[i].as_str());
                        proof {
                            lemma_gate_err_stays(tree.files@, root@, ps, i + 1);
                        }
                        return Err(ToolFault::new(msg.as_str(), Some(at.as_str())));
                    },
                    Ok(t) => {
                        assert(match tree.files@[idx as int].content {
                            Ok(t) => encode_utf8(t@).len() < usize::MAX && 4 * t@.len() + 2 <= usize::MAX,
                            Err(_) => true,
                        });
                        match expand_includes_for_page(t.as_str(), pages[i].as_str(), tree) {
                            Ok(x) => {
                                let ghost before = string_pairs(expanded@);
                                expanded.push((pages[i].clone(), x));
                                assert(string_pairs(expanded@) =~= before.push((pages@[i as int]@, x@)));
                            },
                            Err(inc) => {
                                let ghost before = diagnostic_views(report.diagnostics@);
                                let mut k: usize = 0;
                                while k < inc.diagnostics.len()
                                    invariant
                                        k <= inc.diagnostics@.len(),
                                        diagnostic_views(report.diagnostics@) == before + diagnostic_views(
                                            inc.diagnostics@,
                                        ).take(k as int),
                                    decreases inc.diagnostics@.len() - k,
                                {
                                    let ghost b2 = diagnostic_views(report.diagnostics@);
                                    report.diagnostics.push(inc.diagnostics[k].clone_diagnostic());
                                    assert(diagnostic_views(report.diagnostics@) =~= b2.push(
                                        diagnostic_view(inc.diagnostics@[k as int]),
                                    ));
                                    assert(diagnostic_views(inc.diagnostics@).take(k + 1) =~= diagnostic_views(
                                        inc.diagnostics@,
                                    ).take(k as int).push(diagnostic_view(inc.diagnostics@[k as int])));
                                    k = k + 1;
                                }
                                assert(diagnostic_views(inc.diagnostics@).take(inc.diagnostics@.len() as int)
                                    == diagnostic_views(inc.diagnostics@));
                            },
                        }
                    },
                }
            },
            None => {
                proof {
                    crate::project::lemma_file_index_range(tree.files@, lookup_key(path_components(p@)));
                }
            },
        }
        i = i + 1;
    }
    assert(ps.take(pages@.len() as int) == ps);
    Ok((expanded, report))
}


// ---------------------------------------------------------------------------
// The pipeline
// ---------------------------------------------------------------------------

/// Where a build stands.
#[derive(Debug, Clone, Copy, PartialEq, Eq, Structural)]
pub enum BuildPhase {
    CheckingRoot,
    Validating,
    ResolvingDeno,
    CreatingWorkspace,
    CopyingScripts,
    CheckingWorkspaceManifest,
    ResolvingInstallDeno,
    Installing,
    ResolvingCheckDeno,
    Checking,
    EmittingTokens,
    Staging,
    WritingOutputs,
    CreatingTokenDir,
    WritingTokens,
    ResolvingTransformDeno,
    CreatingOutputDir,
    Transforming,
    ReadingDist,
    UpdatingVersion,
    Done,
}

/// What the build asks of the caller next.
#[derive(Debug)]
pub enum BuildAction {
    /// Check whether the root is a directory.
    CheckRoot(String),
    /// Validate the project at the root for a build.
    Validate(String),
    /// Resolve `deno`.
    ResolveDeno,
    /// Create a fresh build workspace (outside the project) holding the
    /// workspace configuration and copies of `package.json` and `deno.lock`.
    CreateWorkspace,
    /// Copy these project scripts into the workspace, at the same paths.
    CopyScripts { workspace: String, paths: Vec<String> },
    /// Check whether this path is a file.
    IsFile(String),
    /// Run `program` with `args` in `dir`.
    RunDeno { program: String, dir: String, args: Vec<String> },
    /// Turn the text of `tokens/tokens.json` into the token stylesheet.
    EmitTokens(String),
    /// A step of the replacement of `dist/`.
    Dist(DistAction),
    /// Write the planned output files into the stage.
    WriteOutputs { stage: String, files: Vec<OutputFile> },
    /// Create this directory and its parents.
    CreateDir(String),
    /// Write this text to this path.
    WriteFile { path: String, content: String },
    /// Read every file below `dist/`.
    ReadDist(String),
    /// Record the tool version in the project.
    UpdateVersion(String),
    /// Stop with this result, after removing the workspace when there is
    /// one.
    Finish { result: Result<BuildReport, ToolFault>, remove_workspace: Option<String> },
}

/// A build in progress.
#[derive(Debug)]
pub struct BuildRun {
    pub root: String,
    pub tree: ProjectTree,
    pub lock: Option<JsonValue>,
    pub parent: String,
    pub root_name: String,
    pub stage_suffix: String,
    pub backup_suffix: String,
    pub report: ValidationReport,
    pub expanded: Vec<(String, String)>,
    pub entries: Vec<String>,
    pub copy_set: Vec<String>,
    pub workspace: Option<String>,
    pub deno: String,
    pub token_css: Option<String>,
    pub replace: Option<DistReplace>,
    pub stage: String,
    pub next_entry: usize,
    pub output_path: String,
    pub transform_error: Option<Diagnostic>,
    pub needs_http: bool,
    pub phase: BuildPhase,
}

pub open spec fn opt_text(w: Option<String>) -> Option<Seq<char>> {
    match w {
        Some(s) => Some(s@),
        None => None,
    }
}

/// The action finishes with a report of these diagnostics (as plain
/// values), `dist/` below `root`, the HTTP flag, and the workspace to
/// remove.
pub open spec fn finishes_with_report(a: BuildAction, ds: Seq<DiagnosticView>, root: Seq<char>, needs_http: bool, ws: Option<Seq<char>>) -> bool {
    a matches BuildAction::Finish { result: Ok(br), remove_workspace } && diagnostic_views(br.validation.diagnostics@)
        == ds && br.dist_path@ == path_join(root, "dist"@) && br.needs_http == needs_http && opt_text(remove_workspace) == ws
}

/// The action finishes with this fault.
pub open spec fn finishes_with_fault(a: BuildAction, message: Seq<char>, path: Option<Seq<char>>, ws: Option<Seq<char>>) -> bool {
    a matches BuildAction::Finish { result: Err(f), remove_workspace } && fault_is(f, message, path) && opt_text(
        remove_workspace,
    ) == ws
}

/// The action finishes with exactly this fault.
pub open spec fn finishes_with(a: BuildAction, f: ToolFault, ws: Option<Seq<char>>) -> bool {
    a matches BuildAction::Finish { result: Err(g), remove_workspace } && g == f && opt_text(remove_workspace) == ws
}

pub open spec fn report_views(r: ValidationReport) -> Seq<DiagnosticView> {
    diagnostic_views(r.diagnostics@)
}

/// The build's inputs are the same.
pub open spec fn same_inputs(a: BuildRun, b: BuildRun) -> bool {
    &&& a.root == b.root
    &&& a.tree == b.tree
    &&& a.lock == b.lock
    &&& a.parent == b.parent
    &&& a.root_name == b.root_name
    &&& a.stage_suffix == b.stage_suffix
    &&& a.backup_suffix == b.backup_suffix
    &&& a.workspace == b.workspace
}

/// The build's inputs and findings other than its phase and report are
/// the same.
pub open spec fn same_state(a: BuildRun, b: BuildRun) -> bool {
    &&& same_inputs(a, b)
    &&& a.expanded == b.expanded
    &&& a.entries == b.entries
    &&& a.copy_set == b.copy_set
    &&& a.deno == b.deno
    &&& a.token_css == b.token_css
    &&& a.stage == b.stage
}

fn report_finish(m: &mut BuildRun, needs_http: bool) -> (r: BuildAction)
    ensures
        finishes_with_report(r, report_views(old(m).report), old(m).root@, needs_http, opt_text(old(m).workspace)),
        final(m).phase == BuildPhase::Done,
        same_state(*final(m), *old(m)),
{
    let mut report = ValidationReport::new();
    std::mem::swap(&mut report, &mut m.report);
    let ws = match &m.workspace {
        Some(w) => Some(w.clone()),
        None => None,
    };
    m.phase = BuildPhase::Done;
    BuildAction::Finish {
        result: Ok(BuildReport::new(report, join_path(m.root.as_str(), "dist"), needs_http)),
        remove_workspace: ws,
    }
}

fn fault_finish(m: &mut BuildRun, f: ToolFault) -> (r: BuildAction)
    ensures
        finishes_with(r, f, opt_text(old(m).workspace)),
        final(m).phase == BuildPhase::Done,
        same_state(*final(m), *old(m)),
        final(m).report == old(m).report,
{
    let ws = match &m.workspace {
        Some(w) => Some(w.clone()),
        None => None,
    };
    m.phase = BuildPhase::Done;
    BuildAction::Finish { result: Err(f), remove_workspace: ws }
}

impl BuildRun {
    /// Starts a build of the project at `root`, whose files are `tree` and
    /// whose `deno.lock` parses to `lock`; `parent` and `root_name` place
    /// the stage beside the root, and the suffixes make the stage and
    /// backup names unique. The first request is the root check.
    pub fn new(
        root: &str,
        tree: ProjectTree,
        lock: Option<JsonValue>,
        parent: &str,
        root_name: &str,
        stage_suffix: &str,
        backup_suffix: &str,
    ) -> (r: (BuildRun, BuildAction))
        ensures
            r.0.root@ == root@,
            r.0.tree == tree,
            r.0.lock == lock,
            r.0.workspace is None,
            r.0.report.diagnostics@.len() == 0,
            r.0.phase == BuildPhase::CheckingRoot,
            r.1 matches BuildAction::CheckRoot(p) && p@ == root@,
    {
        (
            BuildRun {
                root: root.to_string(),
                tree,
                lock,
                parent: parent.to_string(),
                root_name: root_name.to_string(),
                stage_suffix: stage_suffix.to_string(),
                backup_suffix: backup_suffix.to_string(),
                report: ValidationReport::new(),
                expanded: Vec::new(),
                entries: Vec::new(),
                copy_set: Vec::new(),
                workspace: None,
                deno: String::new(),
                token_css: None,
                replace: None,
                stage: String::new(),
                next_entry: 0,
                output_path: String::new(),
                transform_error: None,
                needs_http: false,
                phase: BuildPhase::CheckingRoot,
            },
            BuildAction::CheckRoot(root.to_string()),
        )
    }

    /// The root is a directory, or not.
    pub fn root_checked(&mut self, is_dir: bool) -> (r: BuildAction)
        requires
            old(self).phase == BuildPhase::CheckingRoot,
            old(self).workspace is None,
        ensures
            final(self).root == old(self).root,
            final(self).tree == old(self).tree,
            final(self).workspace is None,
            !is_dir ==> final(self).phase == BuildPhase::Done && finishes_with_fault(
                r,
                "Project root directory is invalid or unreadable"@,
                Some(old(self).root@),
                None,
            ),
            is_dir ==> final(self).phase == BuildPhase::Validating && (r matches BuildAction::Validate(p) && p@
                == old(self).root@),
    {
        if !is_dir {
            let f = ToolFault::new("Project root directory is invalid or unreadable", Some(self.root.as_str()));
            return fault_finish(self, f);
        }
        self.phase = BuildPhase::Validating;
        BuildAction::Validate(self.root.clone())
    }

    /// The validation of the project ended: stop on a fault or on errors.
    pub fn validated(&mut self, result: Result<ValidationReport, ToolFault>) -> (r: BuildAction)
        requires
            old(self).phase == BuildPhase::Validating,
            old(self).workspace is None,
        ensures
            final(self).root == old(self).root,
            final(self).tree == old(self).tree,
            final(self).lock == old(self).lock,
            final(self).workspace is None,
            match result {
                Err(f) => final(self).phase == BuildPhase::Done && finishes_with(r, f, None),
                Ok(rep) => if has_error_in(rep.diagnostics@) {
                    final(self).phase == BuildPhase::Done && finishes_with_report(
                        r,
                        report_views(rep),
                        old(self).root@,
                        false,
                        None,
                    )
                } else {
                    final(self).phase == BuildPhase::ResolvingDeno && final(self).report == rep && r is ResolveDeno
                },
            },
    {
        match result {
            Err(f) => fault_finish(self, f),
            Ok(rep) => {
                self.report = rep;
                if self.report.has_error() {
                    return report_finish(self, false);
                }
                self.phase = BuildPhase::ResolvingDeno;
                BuildAction::ResolveDeno
            },
        }
    }
}


// ---------------------------------------------------------------------------
// Gates after `deno` is found
// ---------------------------------------------------------------------------

/// The lock check of the expanded pages gave `ds` (see
/// [`crate::entries::check_locked_dependencies`]).
pub open spec fn lock_gate(files: Seq<ProjectFile>, pages: Seq<(Seq<char>, Seq<char>)>, lock: Option<JsonValue>, ds: Seq<DiagnosticView>) -> bool {
    let entries = crate::entries::script_entries(files, pages);
    ||| entries.len() == 0 && ds.len() == 0
    ||| entries.len() > 0 && exists|reachable: Seq<Seq<char>>|
        #[trigger] crate::scripts::is_reachable_set(files, entries.to_set(), reachable.to_set())
            && crate::scripts::sorted_distinct(reachable) && ds == crate::entries::lock_report(
            files,
            crate::scripts::lock_keys(lock),
            reachable,
        )
}

/// Every expanded text can be indexed by byte offsets.
pub open spec fn pages_fit(pages: Seq<(String, String)>) -> bool {
    forall|i: int| 0 <= i < pages.len() ==> encode_utf8((#[trigger] pages[i]).1@).len() < usize::MAX
}

/// A diagnostic as the report stores it at position `n`.
pub open spec fn positioned(v: DiagnosticView, n: nat) -> DiagnosticView {
    if v.ordinal == 0 && n > 0 {
        DiagnosticView { ordinal: n as usize, ..v }
    } else {
        v
    }
}

proof fn lemma_positioned(d: Diagnostic, n: nat)
    ensures
        diagnostic_view(crate::diagnostics::with_position(d, n)) == positioned(diagnostic_view(d), n),
{
}

fn all_fit(pages: &Vec<(String, String)>) -> (r: bool)
    ensures
        r == pages_fit(pages@),
{
    let mut i: usize = 0;
    while i < pages.len()
        invariant
            i <= pages@.len(),
            forall|k: int| 0 <= k < i ==> encode_utf8((#[trigger] pages@[k]).1@).len() < usize::MAX,
        decreases pages@.len() - i,
    {
        let b = pages[i].1.as_str().as_bytes();
        if b.len() == usize::MAX {
            return false;
        }
        i = i + 1;
    }
    true
}

fn added_finish(m: &mut BuildRun, d: Diagnostic) -> (r: BuildAction)
    ensures
        finishes_with_report(
            r,
            report_views(old(m).report).push(positioned(diagnostic_view(d), old(m).report.diagnostics@.len())),
            old(m).root@,
            false,
            opt_text(old(m).workspace),
        ),
        final(m).phase == BuildPhase::Done,
        same_state(*final(m), *old(m)),
{
    let ghost before = m.report.diagnostics@;
    m.report.add(d);
    proof {
        lemma_positioned(d, before.len());
        assert(report_views(m.report) =~= diagnostic_views(before).push(
            positioned(diagnostic_view(d), before.len()),
        ));
    }
    report_finish(m, false)
}

impl BuildRun {
    /// `deno` was resolved, or not: on success the pages are expanded and
    /// the lock is checked, each a gate that stops the build with a report
    /// on errors.
    pub fn deno_resolved(&mut self, result: Result<String, Diagnostic>) -> (r: BuildAction)
        requires
            old(self).phase == BuildPhase::ResolvingDeno,
            old(self).workspace is None,
            texts_fit(old(self).tree.files@),
        ensures
            same_inputs(*final(self), *old(self)),
            match result {
                Err(d) => final(self).phase == BuildPhase::Done && finishes_with_report(
                    r,
                    report_views(old(self).report).push(
                        positioned(diagnostic_view(d), old(self).report.diagnostics@.len()),
                    ),
                    old(self).root@,
                    false,
                    None,
                ),
                Ok(deno) => match pages_gate(old(self).tree.files@, old(self).root@, discovered_pages(old(self).tree.files@)) {
                    Err((msg, path)) => final(self).phase == BuildPhase::Done && finishes_with_fault(r, msg, Some(path), None),
                    Ok((e, ds)) => {
                        let v1 = sorted_views(report_views(old(self).report) + ds);
                        if has_error_view(v1) {
                            final(self).phase == BuildPhase::Done && finishes_with_report(r, v1, old(self).root@, false, None)
                        } else if !pages_fit(final(self).expanded@) {
                            final(self).phase == BuildPhase::Done && finishes_with_fault(
                                r,
                                "Expanded page text is too large to process"@,
                                Some(old(self).root@),
                                None,
                            )
                        } else {
                            exists|lds: Seq<DiagnosticView>|
                                #[trigger] lock_gate(old(self).tree.files@, e, old(self).lock, lds) && {
                                    let v2 = sorted_views(v1 + lds);
                                    if has_error_view(v2) {
                                        final(self).phase == BuildPhase::Done && finishes_with_report(
                                            r,
                                            v2,
                                            old(self).root@,
                                            false,
                                            None,
                                        )
                                    } else {
                                        &&& final(self).phase == BuildPhase::CreatingWorkspace
                                        &&& r is CreateWorkspace
                                        &&& report_views(final(self).report) == v2
                                        &&& string_pairs(final(self).expanded@) == e
                                        &&& pages_fit(final(self).expanded@)
                                        &&& texts(final(self).entries@) == crate::entries::script_entries(
                                            old(self).tree.files@,
                                            e,
                                        )
                                        &&& final(self).deno@ == deno@
                                    }
                                }
                        }
                    },
                },
            },
    {
        match result {
            Err(d) => added_finish(self, d),
            Ok(deno) => {
                self.deno = deno;
                let (expanded, inc) = match expand_pages(&self.tree, self.root.as_str()) {
                    Err(f) => {
                        return fault_finish(self, f);
                    },
                    Ok(x) => x,
                };
                let ghost before = self.report.diagnostics@;
                extend_sorted(&mut self.report, inc);
                proof {
                    crate::diagnostics::lemma_sorted_views(before + inc.diagnostics@);
                    assert(diagnostic_views(before + inc.diagnostics@) =~= diagnostic_views(before) + diagnostic_views(inc.diagnostics@));
                    crate::diagnostics::lemma_has_error_view(self.report.diagnostics@);
                }
                self.expanded = expanded;
                if self.report.has_error() {
                    return report_finish(self, false);
                }
                if !all_fit(&self.expanded) {
                    let f = ToolFault::new("Expanded page text is too large to process", Some(self.root.as_str()));
                    return fault_finish(self, f);
                }
                let lock_report = crate::entries::check_locked_dependencies(
                    &self.tree,
                    &self.expanded,
                    match &self.lock {
                        Some(v) => Some(v),
                        None => None,
                    },
                );
                let ghost lds = diagnostic_views(lock_report.diagnostics@);
                let ghost e = string_pairs(self.expanded@);
                proof {
                    let entries = crate::entries::script_entries(self.tree.files@, e);
                    if entries.len() == 0 {
                        assert(lds =~= seq![]);
                    }
                    assert(lock_gate(self.tree.files@, e, self.lock, lds));
                }
                let ghost before2 = self.report.diagnostics@;
                extend_sorted(&mut self.report, lock_report);
                proof {
                    crate::diagnostics::lemma_sorted_views(before2 + lock_report.diagnostics@);
                    assert(diagnostic_views(before2 + lock_report.diagnostics@) =~= diagnostic_views(before2) + lds);
                    crate::diagnostics::lemma_has_error_view(self.report.diagnostics@);
                }
                if self.report.has_error() {
                    return report_finish(self, false);
                }
                self.entries = crate::entries::discover_script_entries(&self.tree, &self.expanded);
                self.phase = BuildPhase::CreatingWorkspace;
                BuildAction::CreateWorkspace
            },
        }
    }
}


// ---------------------------------------------------------------------------
// Workspace, install, type-check
// ---------------------------------------------------------------------------

/// What follows the type-check: a report that stops the build, a fault,
/// the token stylesheet to emit, or the stage; with the diagnostics so far.
pub enum PostCheck {
    Report(Seq<DiagnosticView>),
    Fault(Seq<char>, Seq<char>),
    Tokens(Seq<DiagnosticView>, Seq<char>),
    Stage(Seq<DiagnosticView>),
}

/// The gates after the type-check (whose diagnostics are `type_ds`): the
/// type errors, the output path collisions, the reachability of every
/// reference; then the token source, if any.
pub open spec fn post_check(
    files: Seq<ProjectFile>,
    root: Seq<char>,
    pages: Seq<(Seq<char>, Seq<char>)>,
    start: Seq<DiagnosticView>,
    type_ds: Seq<DiagnosticView>,
) -> PostCheck {
    let v1 = sorted_views(start + type_ds);
    let c = numbered_from(
        crate::pages::collision_diagnostics(crate::pages::dist_groups(discovered_pages(files))),
        0,
    );
    let v2 = sorted_views(v1 + sorted_views(numbered_from(crate::pages::reachability(files, pages).1, 0)));
    if has_error_view(v1) {
        PostCheck::Report(v1)
    } else if has_error_view(c) {
        PostCheck::Report(sorted_views(v1 + sorted_views(c)))
    } else if has_error_view(v2) {
        PostCheck::Report(v2)
    } else {
        match page_content(files, "tokens/tokens.json"@) {
            Some(Err(e)) => PostCheck::Fault(
                "Failed to read tokens/tokens.json: "@ + e@,
                path_join(root, "tokens/tokens.json"@),
            ),
            Some(Ok(t)) => PostCheck::Tokens(v2, t@),
            None => PostCheck::Stage(v2),
        }
    }
}

/// The stage is started: the first request of the replacement of `dist/`.
pub open spec fn stage_started(m: BuildRun, r: BuildAction) -> bool {
    &&& m.phase == BuildPhase::Staging
    &&& m.replace matches Some(d) && d.phase == crate::dist::DistPhase::CreatingStage && d.root@ == m.root@ && d.parent@
        == m.parent@ && d.root_name@ == m.root_name@ && d.suffix@ == m.stage_suffix@ && d.backup_suffix@
        == m.backup_suffix@ && d.attempt == 0 && !d.had_dist && d.pending is None
    &&& r matches BuildAction::Dist(a) && crate::dist::dist_step_view(a) == crate::dist::DistStep::CreateDir(
        path_join(m.parent@, crate::dist::stage_name(m.root_name@, m.stage_suffix@, 0)),
    )
}

/// The action and state after the gates that follow the type-check (see
/// [`post_check`]).
pub open spec fn after_check(old: BuildRun, new: BuildRun, r: BuildAction, type_ds: Seq<DiagnosticView>) -> bool {
    let ws = opt_text(old.workspace);
    match post_check(old.tree.files@, old.root@, string_pairs(old.expanded@), report_views(old.report), type_ds) {
        PostCheck::Report(v) => new.phase == BuildPhase::Done && finishes_with_report(r, v, old.root@, false, ws),
        PostCheck::Fault(msg, path) => new.phase == BuildPhase::Done && finishes_with_fault(r, msg, Some(path), ws),
        PostCheck::Tokens(v, t) => {
            &&& new.phase == BuildPhase::EmittingTokens
            &&& (r matches BuildAction::EmitTokens(x) && x@ == t)
            &&& report_views(new.report) == v
            &&& texts(new.copy_set@) == crate::pages::reachability(old.tree.files@, string_pairs(old.expanded@)).0
        },
        PostCheck::Stage(v) => {
            &&& stage_started(new, r)
            &&& report_views(new.report) == v
            &&& texts(new.copy_set@) == crate::pages::reachability(old.tree.files@, string_pairs(old.expanded@)).0
            &&& new.token_css is None
        },
    }
}

fn start_stage(m: &mut BuildRun) -> (r: BuildAction)
    ensures
        stage_started(*final(m), r),
        same_inputs(*final(m), *old(m)),
        final(m).report == old(m).report,
        final(m).copy_set == old(m).copy_set,
        final(m).token_css == old(m).token_css,
        final(m).expanded == old(m).expanded,
        final(m).entries == old(m).entries,
        final(m).deno == old(m).deno,
{
    let (d, a) = DistReplace::new(
        m.root.as_str(),
        m.parent.as_str(),
        m.root_name.as_str(),
        m.stage_suffix.as_str(),
        m.backup_suffix.as_str(),
    );
    m.replace = Some(d);
    m.phase = BuildPhase::Staging;
    BuildAction::Dist(a)
}

proof fn lemma_extend_views(a: Seq<Diagnostic>, b: Seq<Diagnostic>)
    ensures
        diagnostic_views(sorted_diagnostics(a + b)) == sorted_views(diagnostic_views(a) + diagnostic_views(b)),
        has_error_in(sorted_diagnostics(a + b)) == has_error_view(sorted_views(diagnostic_views(a) + diagnostic_views(b))),
{
    crate::diagnostics::lemma_sorted_views(a + b);
    assert(diagnostic_views(a + b) =~= diagnostic_views(a) + diagnostic_views(b));
    crate::diagnostics::lemma_has_error_view(sorted_diagnostics(a + b));
}

pub open spec fn type_views(t: Option<Diagnostic>) -> Seq<DiagnosticView> {
    match t {
        Some(d) => seq![diagnostic_view(d)],
        None => seq![],
    }
}

fn gates_after_check(m: &mut BuildRun, type_error: Option<Diagnostic>) -> (r: BuildAction)
    requires
        texts_fit(old(m).tree.files@),
        pages_fit(old(m).expanded@),
    ensures
        after_check(*old(m), *final(m), r, type_views(type_error)),
        same_inputs(*final(m), *old(m)),
        final(m).expanded == old(m).expanded,
        final(m).entries == old(m).entries,
        final(m).deno == old(m).deno,
{
    let ghost files = m.tree.files@;
    let ghost e = string_pairs(m.expanded@);
    let ghost start = report_views(m.report);
    let ghost type_ds = type_views(type_error);
    let tr = crate::toolchain::type_check_scripts(
        match &type_error {
            Some(d) => Err(d.clone_diagnostic()),
            None => Ok(()),
        },
    );
    proof {
        assert(diagnostic_views(tr.diagnostics@) =~= type_ds);
    }
    let ghost b1 = m.report.diagnostics@;
    extend_sorted(&mut m.report, tr);
    proof {
        lemma_extend_views(b1, tr.diagnostics@);
    }
    if m.report.has_error() {
        return report_finish(m, false);
    }
    match crate::pages::discover_and_map_pages(&m.tree) {
        Err(rep) => {
            let ghost b2 = m.report.diagnostics@;
            extend_sorted(&mut m.report, rep);
            proof {
                lemma_extend_views(b2, rep.diagnostics@);
            }
            return report_finish(m, false);
        },
        Ok(_) => {},
    }
    let (reach, rr) = crate::pages::compute_reachability(&m.tree, &m.expanded);
    let ghost b3 = m.report.diagnostics@;
    extend_sorted(&mut m.report, rr);
    proof {
        lemma_extend_views(b3, rr.diagnostics@);
    }
    m.copy_set = reach;
    if m.report.has_error() {
        return report_finish(m, false);
    }
    let tokens_path = lit("tokens/tokens.json");
    let comps = crate::diagnostics::components_of(&tokens_path);
    proof {
        reveal_strlit("tokens/tokens.json");
    }
    match m.tree.find(&comps) {
        Some(idx) => {
            proof {
                crate::project::lemma_file_index_range(files, lookup_key(path_components("tokens/tokens.json"@)));
            }
            let content = match &m.tree.files[idx].content {
                Err(err) => {
                    let mut msg = lit("Failed to read tokens/tokens.json: ");
                    append_str(&mut msg, err.as_str());
                    let text = string_from_chars(&msg);
                    let at = join_path(m.root.as_str(), "tokens/tokens.json");
                    let f = ToolFault::new(text.as_str(), Some(at.as_str()));
                    return fault_finish(m, f);
                },
                Ok(t) => t.clone(),
            };
            m.phase = BuildPhase::EmittingTokens;
            BuildAction::EmitTokens(content)
        },
        None => {
            proof {
                crate::project::lemma_file_index_range(files, lookup_key(path_components("tokens/tokens.json"@)));
            }
            m.token_css = None;
            start_stage(m)
        },
    }
}

impl BuildRun {
    /// The workspace was created (its path), or not.
    pub fn workspace_created(&mut self, result: Result<String, ToolFault>) -> (r: BuildAction)
        requires
            old(self).phase == BuildPhase::CreatingWorkspace,
            old(self).workspace is None,
        ensures
            final(self).root == old(self).root,
            final(self).tree == old(self).tree,
            final(self).expanded == old(self).expanded,
            final(self).entries == old(self).entries,
            final(self).report == old(self).report,
            match result {
                Err(f) => final(self).phase == BuildPhase::Done && finishes_with(r, f, None),
                Ok(ws) => {
                    &&& final(self).phase == BuildPhase::CopyingScripts
                    &&& final(self).workspace == Some(ws)
                    &&& r matches BuildAction::CopyScripts { workspace, paths } && workspace@ == ws@
                        && crate::scripts::is_reachable_set(
                        old(self).tree.files@,
                        texts(old(self).entries@).to_set(),
                        texts(paths@).to_set(),
                    ) && crate::scripts::sorted_distinct(texts(paths@))
                },
            },
    {
        match result {
            Err(f) => fault_finish(self, f),
            Ok(ws) => {
                let paths = crate::scripts::reachable_script_paths(&self.tree, &self.entries);
                let w = ws.clone();
                self.workspace = Some(ws);
                self.phase = BuildPhase::CopyingScripts;
                BuildAction::CopyScripts { workspace: w, paths }
            },
        }
    }

    /// The scripts were copied into the workspace, or not.
    pub fn scripts_copied(&mut self, result: Result<(), ToolFault>) -> (r: BuildAction)
        requires
            old(self).phase == BuildPhase::CopyingScripts,
            old(self).workspace is Some,
        ensures
            same_state(*final(self), *old(self)),
            final(self).report == old(self).report,
            match result {
                Err(f) => final(self).phase == BuildPhase::Done && finishes_with(r, f, opt_text(old(self).workspace)),
                Ok(()) => final(self).phase == BuildPhase::CheckingWorkspaceManifest && (r matches BuildAction::IsFile(p)
                    && p@ == path_join(old(self).workspace->Some_0@, "package.json"@)),
            },
    {
        match result {
            Err(f) => fault_finish(self, f),
            Ok(()) => {
                self.phase = BuildPhase::CheckingWorkspaceManifest;
                let p = match &self.workspace {
                    Some(w) => join_path(w.as_str(), "package.json"),
                    None => String::new(),
                };
                BuildAction::IsFile(p)
            },
        }
    }

    /// The workspace holds `package.json`, or not: dependencies are
    /// installed only when it does.
    pub fn workspace_manifest_checked(&mut self, exists: bool) -> (r: BuildAction)
        requires
            old(self).phase == BuildPhase::CheckingWorkspaceManifest,
        ensures
            same_state(*final(self), *old(self)),
            final(self).report == old(self).report,
            r is ResolveDeno,
            exists ==> final(self).phase == BuildPhase::ResolvingInstallDeno,
            !exists ==> final(self).phase == BuildPhase::ResolvingCheckDeno,
    {
        if exists {
            self.phase = BuildPhase::ResolvingInstallDeno;
        } else {
            self.phase = BuildPhase::ResolvingCheckDeno;
        }
        BuildAction::ResolveDeno
    }

    /// `deno` was resolved for the install, or not.
    pub fn install_deno_resolved(&mut self, result: Result<String, Diagnostic>) -> (r: BuildAction)
        requires
            old(self).phase == BuildPhase::ResolvingInstallDeno,
            old(self).workspace is Some,
        ensures
            same_inputs(*final(self), *old(self)),
            final(self).expanded == old(self).expanded,
            final(self).entries == old(self).entries,
            match result {
                Err(d) => final(self).phase == BuildPhase::Done && finishes_with_report(
                    r,
                    report_views(old(self).report).push(
                        positioned(diagnostic_view(d), old(self).report.diagnostics@.len()),
                    ),
                    old(self).root@,
                    false,
                    opt_text(old(self).workspace),
                ),
                Ok(deno) => {
                    &&& final(self).phase == BuildPhase::Installing
                    &&& final(self).report == old(self).report
                    &&& r matches BuildAction::RunDeno { program, dir, args } && program@ == deno@ && dir@
                        == old(self).workspace->Some_0@ && texts(args@) == seq!["install"@, "--frozen"@]
                },
            },
    {
        match result {
            Err(d) => added_finish(self, d),
            Ok(deno) => {
                let w = match &self.workspace {
                    Some(w) => w.clone(),
                    None => String::new(),
                };
                let mut args: Vec<String> = Vec::new();
                args.push("install".to_string());
                args.push("--frozen".to_string());
                assert(texts(args@) =~= seq!["install"@, "--frozen"@]);
                self.phase = BuildPhase::Installing;
                BuildAction::RunDeno { program: deno, dir: w, args }
            },
        }
    }

    /// `deno install --frozen` ran (see
    /// [`crate::toolchain::install_report`]): a failure stops the build.
    pub fn installed(&mut self, ran: Result<DenoOutput, String>) -> (r: BuildAction)
        requires
            old(self).phase == BuildPhase::Installing,
        ensures
            same_inputs(*final(self), *old(self)),
            final(self).expanded == old(self).expanded,
            final(self).entries == old(self).entries,
            match crate::toolchain::install_report(ran) {
                Some(v) => final(self).phase == BuildPhase::Done && finishes_with_report(
                    r,
                    report_views(old(self).report).push(positioned(v, old(self).report.diagnostics@.len())),
                    old(self).root@,
                    false,
                    opt_text(old(self).workspace),
                ),
                None => final(self).phase == BuildPhase::ResolvingCheckDeno && final(self).report == old(self).report
                    && r is ResolveDeno,
            },
    {
        match crate::toolchain::install_outcome(&ran) {
            Some(d) => added_finish(self, d),
            None => {
                self.phase = BuildPhase::ResolvingCheckDeno;
                BuildAction::ResolveDeno
            },
        }
    }

    /// `deno` was resolved for the type-check, or not: without entries
    /// there is nothing to check.
    pub fn check_deno_resolved(&mut self, result: Result<String, Diagnostic>) -> (r: BuildAction)
        requires
            old(self).phase == BuildPhase::ResolvingCheckDeno,
            old(self).workspace is Some,
            texts_fit(old(self).tree.files@),
            pages_fit(old(self).expanded@),
        ensures
            same_inputs(*final(self), *old(self)),
            final(self).expanded == old(self).expanded,
            final(self).entries == old(self).entries,
            match result {
                Err(d) => after_check(*old(self), *final(self), r, seq![diagnostic_view(d)]),
                Ok(deno) => if old(self).entries@.len() == 0 {
                    after_check(*old(self), *final(self), r, seq![])
                } else {
                    &&& final(self).phase == BuildPhase::Checking
                    &&& final(self).report == old(self).report
                    &&& r matches BuildAction::RunDeno { program, dir, args } && program@ == deno@ && dir@
                        == old(self).workspace->Some_0@ && texts(args@) == crate::toolchain::check_arguments(
                        old(self).workspace->Some_0@,
                        texts(old(self).entries@),
                    )
                },
            },
    {
        match result {
            Err(d) => gates_after_check(self, Some(d)),
            Ok(deno) => {
                if self.entries.len() == 0 {
                    return gates_after_check(self, None);
                }
                let w = match &self.workspace {
                    Some(w) => w.clone(),
                    None => String::new(),
                };
                let args = crate::toolchain::check_command_args(w.as_str(), &self.entries);
                self.phase = BuildPhase::Checking;
                BuildAction::RunDeno { program: deno, dir: w, args }
            },
        }
    }

    /// The type-check ran (see [`crate::toolchain::type_check_report`]);
    /// `canonical` is the workspace path as the file system resolves it.
    pub fn checked(&mut self, ran: Result<DenoOutput, String>, canonical: Option<String>) -> (r: BuildAction)
        requires
            old(self).phase == BuildPhase::Checking,
            old(self).workspace is Some,
            texts_fit(old(self).tree.files@),
            pages_fit(old(self).expanded@),
        ensures
            same_inputs(*final(self), *old(self)),
            final(self).expanded == old(self).expanded,
            final(self).entries == old(self).entries,
            after_check(
                *old(self),
                *final(self),
                r,
                match crate::toolchain::type_check_report(
                    ran,
                    old(self).workspace->Some_0@,
                    old(self).root@,
                    opt_text(canonical),
                    texts(old(self).entries@),
                ) {
                    Some(v) => seq![v],
                    None => seq![],
                },
            ),
    {
        let w = match &self.workspace {
            Some(w) => w.clone(),
            None => String::new(),
        };
        let c = match &canonical {
            Some(c) => Some(c.as_str()),
            None => None,
        };
        let outcome = crate::toolchain::type_check_outcome(&ran, w.as_str(), self.root.as_str(), c, &self.entries);
        gates_after_check(self, outcome)
    }

    /// The token stylesheet was emitted, or the token source could not be
    /// parsed.
    pub fn tokens_emitted(&mut self, result: Result<String, String>) -> (r: BuildAction)
        requires
            old(self).phase == BuildPhase::EmittingTokens,
        ensures
            same_inputs(*final(self), *old(self)),
            final(self).report == old(self).report,
            final(self).copy_set == old(self).copy_set,
            final(self).expanded == old(self).expanded,
            final(self).entries == old(self).entries,
            match result {
                Err(e) => final(self).phase == BuildPhase::Done && finishes_with_fault(
                    r,
                    "Failed to parse tokens/tokens.json: "@ + e@,
                    Some(path_join(old(self).root@, "tokens/tokens.json"@)),
                    opt_text(old(self).workspace),
                ),
                Ok(css) => stage_started(*final(self), r) && final(self).token_css == Some(css),
            },
    {
        match result {
            Err(e) => {
                let mut msg = lit("Failed to parse tokens/tokens.json: ");
                append_str(&mut msg, e.as_str());
                let text = string_from_chars(&msg);
                let at = join_path(self.root.as_str(), "tokens/tokens.json");
                let f = ToolFault::new(text.as_str(), Some(at.as_str()));
                fault_finish(self, f)
            },
            Ok(css) => {
                self.token_css = Some(css);
                start_stage(self)
            },
        }
    }
}


// ---------------------------------------------------------------------------
// The stage: assembling the output, then replacing `dist/`
// ---------------------------------------------------------------------------

/// The writer failed with fault `f` (as plain values): the replacement
/// cleans up the stage.
pub open spec fn writer_failed(new: BuildRun, r: BuildAction, f: (Seq<char>, Option<Seq<char>>)) -> bool {
    &&& new.phase == BuildPhase::Staging
    &&& new.replace matches Some(d) && d.phase == crate::dist::DistPhase::CleaningStage && d.attempt
        < crate::dist::STAGE_ATTEMPTS && (d.pending matches Some(g) && crate::dist::fault_view(g) == f)
    &&& r matches BuildAction::Dist(a) && crate::dist::dist_step_view(a) == crate::dist::DistStep::RemoveStage(
        crate::dist::stage_of(new.replace->Some_0),
    )
}

/// The writer succeeded: the replacement goes on with `dist/`.
pub open spec fn writer_succeeded(new: BuildRun, r: BuildAction) -> bool {
    &&& new.phase == BuildPhase::Staging
    &&& new.replace matches Some(d) && d.phase == crate::dist::DistPhase::CheckingDist && d.attempt
        < crate::dist::STAGE_ATTEMPTS
    &&& r matches BuildAction::Dist(a) && crate::dist::dist_step_view(a) == crate::dist::DistStep::CheckExists(
        path_join(new.root@, "dist"@),
    )
}

/// The state of the replacement while the writer runs.
pub open spec fn writing(m: BuildRun) -> bool {
    m.replace matches Some(d) && d.phase == crate::dist::DistPhase::Writing && d.attempt < crate::dist::STAGE_ATTEMPTS
        && d.root == m.root
}

fn fail_writer(m: &mut BuildRun, f: ToolFault) -> (r: BuildAction)
    requires
        writing(*old(m)),
    ensures
        writer_failed(*final(m), r, crate::dist::fault_view(f)),
        same_state(*final(m), *old(m)),
        final(m).report == old(m).report,
        final(m).transform_error == old(m).transform_error,
{
    let ghost fv = crate::dist::fault_view(f);
    let mut d = m.replace.take().unwrap();
    let a = d.step(DistEvent::Written(Err(f)));
    proof {
        reveal(crate::dist::dist_next);
    }
    m.replace = Some(d);
    m.phase = BuildPhase::Staging;
    BuildAction::Dist(a)
}

fn succeed_writer(m: &mut BuildRun) -> (r: BuildAction)
    requires
        writing(*old(m)),
    ensures
        writer_succeeded(*final(m), r),
        same_state(*final(m), *old(m)),
        final(m).report == old(m).report,
        final(m).transform_error == old(m).transform_error,
{
    let mut d = m.replace.take().unwrap();
    let a = d.step(DistEvent::Written(Ok(())));
    proof {
        reveal(crate::dist::dist_next);
    }
    m.replace = Some(d);
    m.phase = BuildPhase::Staging;
    BuildAction::Dist(a)
}

fn fault_in_stage(message: &Vec<char>, stage: &str) -> (r: ToolFault)
    ensures
        crate::dist::fault_view(r) == (message@, Some(stage@)),
{
    let m = string_from_chars(message);
    ToolFault::new(m.as_str(), Some(stage))
}

/// The diagnostics of a failed transformation of an entry: a
/// `wda.build.type-error` at `location`.
pub open spec fn transform_error_view(message: Seq<char>, next_action: Seq<char>, location: Seq<char>) -> DiagnosticView {
    crate::toolchain::build_error(crate::codes::BUILD_TYPE_ERROR@, message, next_action, Some(location))
}

fn transform_diagnostic(message: &Vec<char>, next_action: &str, location: &str) -> (r: Diagnostic)
    ensures
        diagnostic_view(r) == transform_error_view(message@, next_action@, location@),
{
    let m = string_from_chars(message);
    Diagnostic::new(
        crate::codes::BUILD_TYPE_ERROR,
        crate::diagnostics::Severity::Error,
        Some(crate::diagnostics::Location::path_only(location)),
        m.as_str(),
        next_action,
    )
}

/// The output path (inside `stage`) of a script entry's `dist/` path
/// components, below `dist/`.
pub open spec fn entry_output(stage: Seq<char>, comps: Seq<Seq<char>>) -> Seq<char> {
    path_join(stage, crate::diagnostics::join(comps.skip(1), seq!['/']))
}

/// The directory that holds an entry's output.
pub open spec fn entry_output_dir(stage: Seq<char>, comps: Seq<Seq<char>>) -> Seq<char> {
    if comps.len() <= 2 {
        stage
    } else {
        path_join(stage, crate::diagnostics::join(comps.skip(1).drop_last(), seq!['/']))
    }
}

/// The esbuild arguments for an entry.
pub open spec fn esbuild_arguments(entry: Seq<char>, output: Seq<char>) -> Seq<Seq<char>> {
    seq!["run"@, "-A"@, "npm:esbuild@0.25.5"@, entry, "--bundle"@, "--format=esm"@, "--outfile="@ + output]
}

/// What the transformation of entry `i` asks first: the directory of its
/// output, or, for an entry outside the mapping, the failure of the writer.
pub open spec fn transform_step(old: BuildRun, new: BuildRun, r: BuildAction, i: int) -> bool {
    let entries = texts(old.entries@);
    if i >= entries.len() {
        writer_succeeded(new, r) && new.report == old.report
    } else {
        let entry = entries[i];
        match crate::layout::dist_components(entry) {
            None => {
                &&& new.transform_error matches Some(d) && diagnostic_view(d) == transform_error_view(
                    "Script entry '"@ + entry + "' is outside the supported scripts mapping"@,
                    "Reference a TypeScript entry below scripts/"@,
                    entry,
                )
                &&& writer_failed(new, r, ("Script transformation failed"@, Some(old.stage@)))
                &&& new.report == old.report
            },
            Some(comps) => {
                &&& new.phase == BuildPhase::CreatingOutputDir
                &&& new.next_entry == i
                &&& new.output_path@ == entry_output(old.stage@, comps)
                &&& (r matches BuildAction::CreateDir(p) && p@ == entry_output_dir(old.stage@, comps))
                &&& new.report == old.report
                &&& new.replace == old.replace
            },
        }
    }
}

fn part_of(v: &Vec<Vec<char>>, from: usize, to: usize) -> (r: Vec<Vec<char>>)
    requires
        from <= to <= v@.len(),
    ensures
        crate::diagnostics::views(r@) == crate::diagnostics::views(v@).subrange(from as int, to as int),
{
    let ghost vv = crate::diagnostics::views(v@);
    let mut out: Vec<Vec<char>> = Vec::new();
    let mut k: usize = from;
    while k < to
        invariant
            from <= k <= to,
            to <= v@.len(),
            vv == crate::diagnostics::views(v@),
            crate::diagnostics::views(out@) == vv.subrange(from as int, k as int),
        decreases to - k,
    {
        let ghost before = crate::diagnostics::views(out@);
        out.push(crate::text::copy_chars(&v[k]));
        assert(crate::diagnostics::views(out@) =~= before.push(vv[k as int]));
        assert(vv.subrange(from as int, k + 1) =~= vv.subrange(from as int, k as int).push(vv[k as int]));
        k = k + 1;
    }
    out
}

/// The output path and its directory, inside `stage`, of a script entry
/// that maps into `dist/`.
pub fn entry_paths(entry: &str, stage: &str) -> (r: Option<(String, String)>)
    ensures
        match (r, crate::layout::dist_components(entry@)) {
            (Some((out, dir)), Some(comps)) => out@ == entry_output(stage@, comps) && dir@ == entry_output_dir(
                stage@,
                comps,
            ),
            (None, None) => true,
            _ => false,
        },
{
    match dist_components_of(entry) {
        None => None,
        Some(comps) => {
            let ghost cv = crate::diagnostics::views(comps@);
            proof {
                assert(crate::layout::dist_components(entry@) == Some(cv));
                assert(cv.len() >= 1);
            }
            let rest = part_of(&comps, 1, comps.len());
            proof {
                assert(cv.subrange(1, cv.len() as int) =~= cv.skip(1));
            }
            let rel = string_from_chars(&join_with_slash(&rest));
            let out = join_path(stage, rel.as_str());
            let dir = if comps.len() <= 2 {
                stage.to_string()
            } else {
                let parent_parts = part_of(&comps, 1, comps.len() - 1);
                assert(cv.subrange(1, cv.len() - 1) =~= cv.skip(1).drop_last());
                let pr = string_from_chars(&join_with_slash(&parent_parts));
                join_path(stage, pr.as_str())
            };
            Some((out, dir))
        },
    }
}

fn begin_transform(m: &mut BuildRun) -> (r: BuildAction)
    requires
        writing(*old(m)),
        old(m).next_entry <= old(m).entries@.len(),
    ensures
        transform_step(*old(m), *final(m), r, old(m).next_entry as int),
        same_state(*final(m), *old(m)),
{
    let i = m.next_entry;
    if i >= m.entries.len() {
        return succeed_writer(m);
    }
    let entry = m.entries[i].clone();
    match entry_paths(entry.as_str(), m.stage.as_str()) {
        None => {
            let mut msg = lit("Script entry '");
            append_str(&mut msg, entry.as_str());
            append_str(&mut msg, "' is outside the supported scripts mapping");
            m.transform_error = Some(transform_diagnostic(&msg, "Reference a TypeScript entry below scripts/", entry.as_str()));
            let f = ToolFault::new("Script transformation failed", Some(m.stage.as_str()));
            fail_writer(m, f)
        },
        Some((out, dir)) => {
            m.output_path = out;
            m.phase = BuildPhase::CreatingOutputDir;
            BuildAction::CreateDir(dir)
        },
    }
}


/// What the replacement's finish means for the build: a transformation
/// error is reported; a fault ends it; success goes on to reading `dist/`.
pub open spec fn dist_finished(old: BuildRun, new: BuildRun, r: BuildAction, res: Option<(Seq<char>, Option<Seq<char>>)>) -> bool {
    let ws = opt_text(old.workspace);
    match old.transform_error {
        Some(d) => {
            let n = old.report.diagnostics@.len();
            new.phase == BuildPhase::Done && finishes_with_report(
                r,
                sorted_views(report_views(old.report).push(positioned(diagnostic_view(d), n))),
                old.root@,
                false,
                ws,
            )
        },
        None => match res {
            Some((msg, path)) => new.phase == BuildPhase::Done && finishes_with_fault(r, msg, path, ws),
            None => new.phase == BuildPhase::ReadingDist && new.report == old.report && (r matches BuildAction::ReadDist(
                p,
            ) && p@ == path_join(old.root@, "dist"@)),
        },
    }
}

fn finish_stage(m: &mut BuildRun, result: Result<(), ToolFault>) -> (r: BuildAction)
    ensures
        dist_finished(
            *old(m),
            *final(m),
            r,
            match result {
                Ok(()) => None,
                Err(f) => Some(crate::dist::fault_view(f)),
            },
        ),
        same_inputs(*final(m), *old(m)),
        final(m).expanded == old(m).expanded,
        final(m).entries == old(m).entries,
{
    match m.transform_error.take() {
        Some(d) => {
            let ghost before = m.report.diagnostics@;
            m.report.add(d);
            let ghost unsorted = m.report.diagnostics@;
            m.report.sort();
            proof {
                lemma_positioned(d, before.len());
                crate::diagnostics::lemma_sorted_views(unsorted);
                assert(diagnostic_views(unsorted) =~= diagnostic_views(before).push(positioned(diagnostic_view(d), before.len())));
            }
            report_finish(m, false)
        },
        None => match result {
            Err(f) => {
                let ghost fv = crate::dist::fault_view(f);
                let a = fault_finish(m, f);
                a
            },
            Ok(()) => {
                m.phase = BuildPhase::ReadingDist;
                BuildAction::ReadDist(join_path(m.root.as_str(), "dist"))
            },
        },
    }
}

impl BuildRun {
    /// A step of the replacement of `dist/` went as `event` says. When the
    /// replacement asks for the output, the writer starts: the output plan
    /// of the reachable set (its warnings join the report, and an error
    /// stops the writer), then its files are written.
    pub fn dist_progress(&mut self, event: DistEvent) -> (r: BuildAction)
        requires
            old(self).phase == BuildPhase::Staging,
            old(self).replace matches Some(d) && d.attempt < crate::dist::STAGE_ATTEMPTS && d.root == old(self).root,
        ensures
            same_inputs(*final(self), *old(self)),
            final(self).expanded == old(self).expanded,
            final(self).entries == old(self).entries,
            ({
                let d = old(self).replace->Some_0;
                let (p, a, pending) = crate::dist::dist_next(d, event);
                match a {
                    crate::dist::DistStep::RunWriter(stage) => {
                        &&& final(self).stage@ == stage
                        &&& match crate::pages::reachable_outputs(old(self).tree.files@, texts(old(self).copy_set@)) {
                            Err(e) => writer_failed(*final(self), r, ("Failed to assemble build output: "@ + e, Some(stage))),
                            Ok(outs) => {
                                let v = sorted_views(
                                    report_views(old(self).report) + sorted_views(
                                        numbered_from(
                                            crate::pages::unreferenced_assets(
                                                crate::pages::sort_paths(crate::pages::asset_paths(old(self).tree.files@)),
                                                texts(old(self).copy_set@),
                                            ),
                                            0,
                                        ),
                                    ),
                                );
                                &&& report_views(final(self).report) == v
                                &&& if has_error_view(v) {
                                    writer_failed(*final(self), r, ("Build output validation failed"@, Some(stage)))
                                } else {
                                    &&& final(self).phase == BuildPhase::WritingOutputs
                                    &&& writing(*final(self))
                                    &&& r matches BuildAction::WriteOutputs { stage: st, files } && st@ == stage
                                        && crate::pages::output_views(files@) == crate::pages::page_outputs(
                                        old(self).tree.files@,
                                        string_pairs(old(self).expanded@),
                                    ) + outs
                                }
                            },
                        }
                    },
                    crate::dist::DistStep::Finish(res) => dist_finished(*old(self), *final(self), r, res),
                    _ => {
                        &&& final(self).phase == BuildPhase::Staging
                        &&& final(self).report == old(self).report
                        &&& r matches BuildAction::Dist(x) && crate::dist::dist_step_view(x) == a
                        &&& final(self).replace matches Some(nd) && nd.phase == p && nd.attempt
                            < crate::dist::STAGE_ATTEMPTS && nd.root == old(self).root
                    },
                }
            }),
    {
        let mut d = self.replace.take().unwrap();
        let ghost d0 = d;
        let a = d.step(event);
        match a {
            DistAction::RunWriter(stage) => {
                self.replace = Some(d);
                self.stage = stage;
                match crate::pages::copy_reachable_set(&self.tree, &self.expanded, &self.copy_set) {
                    Err(e) => {
                        let mut msg = lit("Failed to assemble build output: ");
                        append_str(&mut msg, e.as_str());
                        let f = fault_in_stage(&msg, self.stage.as_str());
                        proof {
                            reveal(crate::dist::dist_next);
                        }
                        fail_writer(self, f)
                    },
                    Ok((rep, files)) => {
                        let ghost b = self.report.diagnostics@;
                        extend_sorted(&mut self.report, rep);
                        proof {
                            lemma_extend_views(b, rep.diagnostics@);
                            reveal(crate::dist::dist_next);
                        }
                        if self.report.has_error() {
                            let f = ToolFault::new("Build output validation failed", Some(self.stage.as_str()));
                            return fail_writer(self, f);
                        }
                        self.phase = BuildPhase::WritingOutputs;
                        BuildAction::WriteOutputs { stage: self.stage.clone(), files }
                    },
                }
            },
            DistAction::Finish(result) => {
                self.replace = Some(d);
                finish_stage(self, result)
            },
            other => {
                self.replace = Some(d);
                BuildAction::Dist(other)
            },
        }
    }

    /// The output files were written into the stage, or not.
    pub fn outputs_written(&mut self, result: Result<(), String>) -> (r: BuildAction)
        requires
            old(self).phase == BuildPhase::WritingOutputs,
            writing(*old(self)),
        ensures
            same_state(*final(self), *old(self)),
            final(self).report == old(self).report,
            match result {
                Err(e) => writer_failed(*final(self), r, ("Failed to assemble build output: "@ + e@, Some(old(self).stage@))),
                Ok(()) => match old(self).token_css {
                    Some(css) => final(self).phase == BuildPhase::CreatingTokenDir && writing(*final(self)) && (r matches BuildAction::CreateDir(
                        p,
                    ) && p@ == path_join(old(self).stage@, "styles"@)),
                    None => final(self).phase == BuildPhase::ResolvingTransformDeno && writing(*final(self)) && r is ResolveDeno,
                },
            },
    {
        match result {
            Err(e) => {
                let mut msg = lit("Failed to assemble build output: ");
                append_str(&mut msg, e.as_str());
                let f = fault_in_stage(&msg, self.stage.as_str());
                fail_writer(self, f)
            },
            Ok(()) => {
                if self.token_css.is_some() {
                    self.phase = BuildPhase::CreatingTokenDir;
                    BuildAction::CreateDir(join_path(self.stage.as_str(), "styles"))
                } else {
                    self.phase = BuildPhase::ResolvingTransformDeno;
                    BuildAction::ResolveDeno
                }
            },
        }
    }

    /// The directory of the token stylesheet was created, or not.
    pub fn token_dir_created(&mut self, result: Result<(), String>) -> (r: BuildAction)
        requires
            old(self).phase == BuildPhase::CreatingTokenDir,
            writing(*old(self)),
            old(self).token_css is Some,
        ensures
            same_state(*final(self), *old(self)),
            final(self).report == old(self).report,
            match result {
                Err(e) => writer_failed(
                    *final(self),
                    r,
                    (
                        "Failed to prepare token stylesheet: "@ + e@,
                        Some(path_join(old(self).stage@, "styles/tokens.css"@)),
                    ),
                ),
                Ok(()) => final(self).phase == BuildPhase::WritingTokens && writing(*final(self)) && (r matches BuildAction::WriteFile {
                    path,
                    content,
                } && path@ == path_join(old(self).stage@, "styles/tokens.css"@) && content@ == old(
                    self,
                ).token_css->Some_0@),
            },
    {
        let path = join_path(self.stage.as_str(), "styles/tokens.css");
        match result {
            Err(e) => {
                let mut msg = lit("Failed to prepare token stylesheet: ");
                append_str(&mut msg, e.as_str());
                let f = fault_in_stage(&msg, path.as_str());
                fail_writer(self, f)
            },
            Ok(()) => {
                let css = match &self.token_css {
                    Some(c) => c.clone(),
                    None => String::new(),
                };
                self.phase = BuildPhase::WritingTokens;
                BuildAction::WriteFile { path, content: css }
            },
        }
    }

    /// The token stylesheet was written, or not.
    pub fn tokens_written(&mut self, result: Result<(), String>) -> (r: BuildAction)
        requires
            old(self).phase == BuildPhase::WritingTokens,
            writing(*old(self)),
        ensures
            same_state(*final(self), *old(self)),
            final(self).report == old(self).report,
            match result {
                Err(e) => writer_failed(
                    *final(self),
                    r,
                    ("Failed to write token stylesheet: "@ + e@, Some(path_join(old(self).stage@, "styles/tokens.css"@))),
                ),
                Ok(()) => final(self).phase == BuildPhase::ResolvingTransformDeno && writing(*final(self)) && r is ResolveDeno,
            },
    {
        match result {
            Err(e) => {
                let path = join_path(self.stage.as_str(), "styles/tokens.css");
                let mut msg = lit("Failed to write token stylesheet: ");
                append_str(&mut msg, e.as_str());
                let f = fault_in_stage(&msg, path.as_str());
                fail_writer(self, f)
            },
            Ok(()) => {
                self.phase = BuildPhase::ResolvingTransformDeno;
                BuildAction::ResolveDeno
            },
        }
    }

    /// `deno` was resolved for the transformation, or not; the entries are
    /// then transformed one by one, in order.
    pub fn transform_deno_resolved(&mut self, result: Result<String, Diagnostic>) -> (r: BuildAction)
        requires
            old(self).phase == BuildPhase::ResolvingTransformDeno,
            writing(*old(self)),
        ensures
            same_inputs(*final(self), *old(self)),
            final(self).entries == old(self).entries,
            match result {
                Err(d) => final(self).transform_error == Some(d) && writer_failed(
                    *final(self),
                    r,
                    ("Script transformation failed"@, Some(old(self).stage@)),
                ) && final(self).report == old(self).report,
                Ok(deno) => final(self).deno@ == deno@ && transform_step(
                    BuildRun { deno: final(self).deno, next_entry: 0, ..*old(self) },
                    *final(self),
                    r,
                    0,
                ),
            },
    {
        match result {
            Err(d) => {
                self.transform_error = Some(d);
                let f = ToolFault::new("Script transformation failed", Some(self.stage.as_str()));
                fail_writer(self, f)
            },
            Ok(deno) => {
                self.deno = deno;
                self.next_entry = 0;
                begin_transform(self)
            },
        }
    }

    /// The directory of the current entry's output was created, or not.
    pub fn output_dir_created(&mut self, result: Result<(), String>) -> (r: BuildAction)
        requires
            old(self).phase == BuildPhase::CreatingOutputDir,
            writing(*old(self)),
            old(self).workspace is Some,
            old(self).next_entry < old(self).entries@.len(),
        ensures
            same_state(*final(self), *old(self)),
            final(self).report == old(self).report,
            match result {
                Err(e) => final(self).transform_error matches Some(d) && diagnostic_view(d) == transform_error_view(
                    "Unable to prepare transformed script output: "@ + e@,
                    "Ensure the build output directory is writable"@,
                    old(self).output_path@,
                ) && writer_failed(*final(self), r, ("Script transformation failed"@, Some(old(self).stage@))),
                Ok(()) => {
                    &&& final(self).phase == BuildPhase::Transforming
                    &&& writing(*final(self))
                    &&& final(self).next_entry == old(self).next_entry
                    &&& r matches BuildAction::RunDeno { program, dir, args } && program@ == old(self).deno@ && opt_text(
                        Some(dir),
                    ) == opt_text(old(self).workspace) && texts(args@) == esbuild_arguments(
                        old(self).entries@[old(self).next_entry as int]@,
                        old(self).output_path@,
                    )
                },
            },
    {
        match result {
            Err(e) => {
                let mut msg = lit("Unable to prepare transformed script output: ");
                append_str(&mut msg, e.as_str());
                self.transform_error = Some(transform_diagnostic(&msg, "Ensure the build output directory is writable", self.output_path.as_str()));
                let f = ToolFault::new("Script transformation failed", Some(self.stage.as_str()));
                fail_writer(self, f)
            },
            Ok(()) => {
                let entry = self.entries[self.next_entry].clone();
                let mut out_arg = lit("--outfile=");
                append_str(&mut out_arg, self.output_path.as_str());
                let mut args: Vec<String> = Vec::new();
                args.push("run".to_string());
                args.push("-A".to_string());
                args.push("npm:esbuild@0.25.5".to_string());
                args.push(entry);
                args.push("--bundle".to_string());
                args.push("--format=esm".to_string());
                args.push(string_from_chars(&out_arg));
                assert(texts(args@) =~= esbuild_arguments(self.entries@[self.next_entry as int]@, self.output_path@));
                let w = match &self.workspace {
                    Some(w) => w.clone(),
                    None => String::new(),
                };
                self.phase = BuildPhase::Transforming;
                BuildAction::RunDeno { program: self.deno.clone(), dir: w, args }
            },
        }
    }
}


/// The message of a failed esbuild run.
pub open spec fn esbuild_failure(out: DenoOutput) -> Seq<char> {
    if crate::layout::trimmed(out.stderr@).len() == 0 {
        "Deno esbuild transform failed with status "@ + out.status@
    } else {
        "Deno esbuild transform failed: "@ + crate::layout::trimmed(out.stderr@)
    }
}

impl BuildRun {
    /// esbuild ran for the current entry: a failure stops the writer with
    /// a type error at the entry; success goes on with the next entry.
    pub fn transformed(&mut self, ran: Result<DenoOutput, String>) -> (r: BuildAction)
        requires
            old(self).phase == BuildPhase::Transforming,
            writing(*old(self)),
            old(self).next_entry < old(self).entries@.len(),
        ensures
            same_inputs(*final(self), *old(self)),
            final(self).entries == old(self).entries,
            ({
                let entry = old(self).entries@[old(self).next_entry as int]@;
                match ran {
                    Err(e) => final(self).transform_error matches Some(d) && diagnostic_view(d) == transform_error_view(
                        "Deno esbuild transform could not be started: "@ + e@,
                        "Ensure the resolved deno executable can run"@,
                        entry,
                    ) && writer_failed(*final(self), r, ("Script transformation failed"@, Some(old(self).stage@))),
                    Ok(out) => if out.success {
                        transform_step(
                            BuildRun { next_entry: (old(self).next_entry + 1) as usize, ..*old(self) },
                            *final(self),
                            r,
                            old(self).next_entry + 1,
                        )
                    } else {
                        final(self).transform_error matches Some(d) && diagnostic_view(d) == transform_error_view(
                            esbuild_failure(out),
                            "Fix the TypeScript source and run the build again"@,
                            entry,
                        ) && writer_failed(*final(self), r, ("Script transformation failed"@, Some(old(self).stage@)))
                    },
                }
            }),
    {
        let entry = self.entries[self.next_entry].clone();
        match ran {
            Err(e) => {
                let mut msg = lit("Deno esbuild transform could not be started: ");
                append_str(&mut msg, e.as_str());
                self.transform_error = Some(transform_diagnostic(&msg, "Ensure the resolved deno executable can run", entry.as_str()));
                let f = ToolFault::new("Script transformation failed", Some(self.stage.as_str()));
                fail_writer(self, f)
            },
            Ok(out) => {
                if out.success {
                    let n = self.entries.len();
                    assert(self.next_entry < n);
                    self.next_entry = self.next_entry + 1;
                    return begin_transform(self);
                }
                let stderr = crate::layout::trim_chars(&chars_of(out.stderr.as_str()));
                let msg = if stderr.len() == 0 {
                    let mut m = lit("Deno esbuild transform failed with status ");
                    append_str(&mut m, out.status.as_str());
                    m
                } else {
                    let mut m = lit("Deno esbuild transform failed: ");
                    crate::text::append_chars(&mut m, &stderr);
                    m
                };
                self.transform_error = Some(transform_diagnostic(&msg, "Fix the TypeScript source and run the build again", entry.as_str()));
                let f = ToolFault::new("Script transformation failed", Some(self.stage.as_str()));
                fail_writer(self, f)
            },
        }
    }

    /// The bytes of every file below `dist/`: whether the output needs an
    /// HTTP server is decided from them.
    pub fn dist_read(&mut self, contents: &Vec<Vec<u8>>) -> (r: BuildAction)
        requires
            old(self).phase == BuildPhase::ReadingDist,
        ensures
            same_state(*final(self), *old(self)),
            final(self).report == old(self).report,
            final(self).phase == BuildPhase::UpdatingVersion,
            final(self).needs_http == crate::report::needs_http(contents@.map_values(|b: Vec<u8>| b@)),
            r matches BuildAction::UpdateVersion(p) && p@ == old(self).root@,
    {
        self.needs_http = crate::report::detect_http_requirement(contents);
        self.phase = BuildPhase::UpdatingVersion;
        BuildAction::UpdateVersion(self.root.clone())
    }

    /// The tool version was recorded, or not: the build ends.
    pub fn version_updated(&mut self, result: Result<(), ToolFault>) -> (r: BuildAction)
        requires
            old(self).phase == BuildPhase::UpdatingVersion,
        ensures
            final(self).phase == BuildPhase::Done,
            match result {
                Err(f) => finishes_with(r, f, opt_text(old(self).workspace)),
                Ok(()) => finishes_with_report(
                    r,
                    report_views(old(self).report),
                    old(self).root@,
                    old(self).needs_http,
                    opt_text(old(self).workspace),
                ),
            },
    {
        match result {
            Err(f) => fault_finish(self, f),
            Ok(()) => {
                let h = self.needs_http;
                report_finish(self, h)
            },
        }
    }
}


// ---------------------------------------------------------------------------
// Transformation commands
// ---------------------------------------------------------------------------

/// The esbuild run for one script entry: the entry, its output file and
/// that file's directory below the output directory, and the arguments of
/// `deno`.
#[derive(Debug)]
pub struct TransformCommand {
    pub entry: String,
    pub output: String,
    pub output_dir: String,
    pub args: Vec<String>,
}

/// The transformation plan of the entries into `output_dir`, in order:
/// `(entry, output, output directory, arguments)` for each; or the
/// diagnostic of the first entry outside the scripts mapping.
pub open spec fn transform_plan(entries: Seq<Seq<char>>, output_dir: Seq<char>) -> Result<
    Seq<(Seq<char>, Seq<char>, Seq<char>, Seq<Seq<char>>)>,
    DiagnosticView,
>
    decreases entries.len(),
{
    if entries.len() == 0 {
        Ok(seq![])
    } else {
        match transform_plan(entries.drop_last(), output_dir) {
            Err(d) => Err(d),
            Ok(cmds) => {
                let entry = entries.last();
                match crate::layout::dist_components(entry) {
                    None => Err(
                        transform_error_view(
                            "Script entry '"@ + entry + "' is outside the supported scripts mapping"@,
                            "Reference a TypeScript entry below scripts/"@,
                            entry,
                        ),
                    ),
                    Some(comps) => Ok(
                        cmds.push(
                            (
                                entry,
                                entry_output(output_dir, comps),
                                entry_output_dir(output_dir, comps),
                                esbuild_arguments(entry, entry_output(output_dir, comps)),
                            ),
                        ),
                    ),
                }
            },
        }
    }
}

pub open spec fn command_views(cs: Seq<TransformCommand>) -> Seq<(Seq<char>, Seq<char>, Seq<char>, Seq<Seq<char>>)> {
    cs.map_values(|c: TransformCommand| (c.entry@, c.output@, c.output_dir@, texts(c.args@)))
}

/// Law: the transformation plans one run per script entry, in order, and
/// fails exactly when an entry has no `dist/` path: each run bundles its
/// entry into the entry's `dist/` path with `dist` replaced by the output
/// directory. The plan is a function of the entries and the output
/// directory alone, so planning twice gives the same runs.
pub proof fn law_transform_plans_every_entry(entries: Seq<Seq<char>>, out: Seq<char>)
    ensures
        (forall|i: int| 0 <= i < entries.len() ==> crate::layout::dist_components(#[trigger] entries[i]) is Some)
            <==> transform_plan(entries, out) is Ok,
        transform_plan(entries, out) matches Ok(plan) ==> plan.len() == entries.len() && forall|i: int|
            0 <= i < entries.len() ==> (#[trigger] plan[i]).0 == entries[i] && plan[i].1 == entry_output(
                out,
                crate::layout::dist_components(entries[i])->Some_0,
            ) && plan[i].2 == entry_output_dir(out, crate::layout::dist_components(entries[i])->Some_0)
                && plan[i].3 == esbuild_arguments(entries[i], plan[i].1),
    decreases entries.len(),
{
    if entries.len() > 0 {
        let d = entries.drop_last();
        law_transform_plans_every_entry(d, out);
        assert forall|i: int| 0 <= i < d.len() implies d[i] == entries[i] by {}
        let e = entries.last();
        assert(e == entries[entries.len() - 1]);
        if (forall|i: int| 0 <= i < entries.len() ==> crate::layout::dist_components(#[trigger] entries[i]) is Some) {
            assert forall|i: int| 0 <= i < d.len() implies crate::layout::dist_components(#[trigger] d[i]) is Some by {
                assert(d[i] == entries[i]);
            }
        }
        if transform_plan(d, out) is Ok && crate::layout::dist_components(e) is Some {
            assert forall|i: int| 0 <= i < entries.len() implies crate::layout::dist_components(#[trigger] entries[i])
                is Some by {
                if i < d.len() {
                    assert(d[i] == entries[i]);
                }
            }
        }
        if transform_plan(d, out) is Err {
            let i = choose|i: int| 0 <= i < d.len() && !(crate::layout::dist_components(#[trigger] d[i]) is Some);
            assert(d[i] == entries[i]);
        }
    }
}

proof fn lemma_plan_err_stays(entries: Seq<Seq<char>>, out: Seq<char>, n: int)
    requires
        0 <= n <= entries.len(),
        transform_plan(entries.take(n), out) is Err,
    ensures
        transform_plan(entries, out) == transform_plan(entries.take(n), out),
    decreases entries.len() - n,
{
    if n < entries.len() {
        assert(entries.take(n + 1).drop_last() == entries.take(n));
        lemma_plan_err_stays(entries, out, n + 1);
    } else {
        assert(entries.take(n) == entries);
    }
}

/// Plans the esbuild run of each script entry into `output_dir` (see
/// [`transform_plan`]).
pub fn transform_script_entries(entries: &Vec<String>, output_dir: &str) -> (r: Result<Vec<TransformCommand>, Diagnostic>)
    ensures
        match (r, transform_plan(texts(entries@), output_dir@)) {
            (Ok(cs), Ok(p)) => command_views(cs@) == p,
            (Err(d), Err(v)) => diagnostic_view(d) == v,
            _ => false,
        },
{
    let ghost es = texts(entries@);
    let mut out: Vec<TransformCommand> = Vec::new();
    let mut i: usize = 0;
    assert(command_views(out@) =~= seq![]);
    while i < entries.len()
        invariant
            i <= entries@.len(),
            es == texts(entries@),
            transform_plan(es.take(i as int), output_dir@) == Ok::<
                Seq<(Seq<char>, Seq<char>, Seq<char>, Seq<Seq<char>>)>,
                DiagnosticView,
            >(command_views(out@)),
        decreases entries@.len() - i,
    {
        assert(es.take(i + 1).drop_last() == es.take(i as int));
        assert(es.take(i + 1).last() == entries@[i as int]@);
        let entry = entries[i].as_str();
        match entry_paths(entry, output_dir) {
            None => {
                let mut msg = lit("Script entry '");
                append_str(&mut msg, entry);
                append_str(&mut msg, "' is outside the supported scripts mapping");
                proof {
                    lemma_plan_err_stays(es, output_dir@, i + 1);
                }
                return Err(transform_diagnostic(&msg, "Reference a TypeScript entry below scripts/", entry));
            },
            Some((output, dir)) => {
                let mut out_arg = lit("--outfile=");
                append_str(&mut out_arg, output.as_str());
                let mut args: Vec<String> = Vec::new();
                args.push("run".to_string());
                args.push("-A".to_string());
                args.push("npm:esbuild@0.25.5".to_string());
                args.push(entry.to_string());
                args.push("--bundle".to_string());
                args.push("--format=esm".to_string());
                args.push(string_from_chars(&out_arg));
                assert(texts(args@) =~= esbuild_arguments(entry@, output@));
                let ghost before = command_views(out@);
                let ghost item = (entry@, output@, dir@, texts(args@));
                out.push(TransformCommand { entry: entry.to_string(), output, output_dir: dir, args });
                assert(command_views(out@) =~= before.push(item));
            },
        }
        i = i + 1;
    }
    assert(es.take(entries@.len() as int) == es);
    Ok(out)
}

/// Plans the esbuild runs of the script entries of the expanded pages
/// (see [`crate::entries::script_entries`] and [`transform_plan`]).
pub fn transform_scripts(tree: &ProjectTree, pages: &Vec<(String, String)>, output_dir: &str) -> (r: Result<
    Vec<TransformCommand>,
    Diagnostic,
>)
    requires
        pages_fit(pages@),
    ensures
        match (r, transform_plan(crate::entries::script_entries(tree.files@, string_pairs(pages@)), output_dir@)) {
            (Ok(cs), Ok(p)) => command_views(cs@) == p,
            (Err(d), Err(v)) => diagnostic_view(d) == v,
            _ => false,
        },
{
    let entries = crate::entries::discover_script_entries(tree, pages);
    transform_script_entries(&entries, output_dir)
}

} // verus!
