//! A `deno` dependency command confined to a fresh staging directory: the
//! decisions, step by step. The project's `package.json` (or a seed) and its
//! `deno.lock`, when present, are copied into the stage; `deno` runs there;
//! the staged files are read back; the stage is removed on every exit once
//! it exists. Nothing is ever written into the project root.

use vstd::prelude::*;

use crate::codes;
use crate::deps::StagedFiles;
use crate::diagnostics::{diagnostic_view, Diagnostic, DiagnosticView, Severity};
use crate::layout::{trim_chars, trimmed};
use crate::pages::texts;
use crate::text::{append_str, chars_of, lit, string_from_chars};
use crate::tools::{join_path, path_join, tool_diagnostic};

verus! {

/// How a `deno` run ended: whether it succeeded, its exit status and its
/// standard error, as text.
#[derive(Debug, Clone, PartialEq, Eq)]
pub struct DenoOutput {
    pub success: bool,
    pub status: String,
    pub stderr: String,
}

/// Where a staged run stands.
#[derive(Debug, Clone, Copy, PartialEq, Eq, Structural)]
pub enum StagedPhase {
    ResolvingDeno,
    CreatingStage,
    CheckingManifest,
    CopyingManifest,
    SeedingManifest,
    CheckingLock,
    CopyingLock,
    RunningDeno,
    ReadingManifest,
    CheckingStagedLock,
    ReadingLock,
    Done,
}

/// How the requested operation went.
#[derive(Debug)]
pub enum StagedEvent {
    /// The resolution of `deno`: its path, or the diagnostic.
    Tool(Result<String, Diagnostic>),
    /// A directory was created, or a file copied or written.
    Succeeded,
    /// That operation failed; the error as text.
    Failed(String),
    /// Whether the checked path is a file.
    Exists(bool),
    /// The text read, or the error as text.
    Text(Result<String, String>),
    /// How running `deno` ended, or the error starting it.
    Ran(Result<DenoOutput, String>),
}

/// What the staged run asks of the caller next.
#[derive(Debug)]
pub enum StagedAction {
    /// Resolve the `deno` executable.
    ResolveDeno,
    /// Create this directory (and its parents).
    CreateDir(String),
    /// Check whether this path is a file.
    IsFile(String),
    /// Copy a file.
    CopyFile { from: String, to: String },
    /// Write this text to this path.
    WriteFile { path: String, content: String },
    /// Run `program` with `args` in directory `dir`.
    RunDeno { program: String, dir: String, args: Vec<String> },
    /// Read this file as text.
    ReadText(String),
    /// Stop with this result, removing the stage directory first when told.
    Finish { result: Result<StagedFiles, Diagnostic>, remove_stage: bool },
}

/// A staged run: the project root, the stage directory chosen by the
/// caller, the `deno` arguments, and what it has learned so far.
#[derive(Debug)]
pub struct StagedRun {
    pub project_root: String,
    pub stage: String,
    pub args: Vec<String>,
    pub deno: String,
    pub package_json: String,
    pub phase: StagedPhase,
}

/// A staged action over plain values.
pub enum StagedStep {
    ResolveDeno,
    CreateDir(Seq<char>),
    IsFile(Seq<char>),
    CopyFile(Seq<char>, Seq<char>),
    WriteFile(Seq<char>, Seq<char>),
    RunDeno(Seq<char>, Seq<char>, Seq<Seq<char>>),
    ReadText(Seq<char>),
    Finish(Result<(Seq<char>, Option<Seq<char>>), DiagnosticView>, bool),
}

pub open spec fn staged_step_view(a: StagedAction) -> StagedStep {
    match a {
        StagedAction::ResolveDeno => StagedStep::ResolveDeno,
        StagedAction::CreateDir(p) => StagedStep::CreateDir(p@),
        StagedAction::IsFile(p) => StagedStep::IsFile(p@),
        StagedAction::CopyFile { from, to } => StagedStep::CopyFile(from@, to@),
        StagedAction::WriteFile { path, content } => StagedStep::WriteFile(path@, content@),
        StagedAction::RunDeno { program, dir, args } => StagedStep::RunDeno(program@, dir@, texts(args@)),
        StagedAction::ReadText(p) => StagedStep::ReadText(p@),
        StagedAction::Finish { result, remove_stage } => StagedStep::Finish(
            match result {
                Ok(f) => Ok(
                    (
                        f.package_json@,
                        match f.deno_lock {
                            Some(l) => Some(l@),
                            None => None,
                        },
                    ),
                ),
                Err(d) => Err(diagnostic_view(d)),
            },
            remove_stage,
        ),
    }
}

/// Whether `e` is an answer to the request of phase `p`.
pub open spec fn event_fits(p: StagedPhase, e: StagedEvent) -> bool {
    match p {
        StagedPhase::ResolvingDeno => e is Tool,
        StagedPhase::CreatingStage | StagedPhase::CopyingManifest | StagedPhase::SeedingManifest
        | StagedPhase::CopyingLock => e is Succeeded || e is Failed,
        StagedPhase::CheckingManifest | StagedPhase::CheckingLock | StagedPhase::CheckingStagedLock => e is Exists,
        StagedPhase::RunningDeno => e is Ran,
        StagedPhase::ReadingManifest | StagedPhase::ReadingLock => e is Text,
        StagedPhase::Done => false,
    }
}

/// A failed finish with a tool-fault diagnostic.
pub open spec fn staged_fault(message: Seq<char>, next_action: Seq<char>, remove: bool) -> StagedStep {
    StagedStep::Finish(Err(tool_diagnostic(codes::TOOL_FAULT@, message, next_action)), remove)
}

/// The seed manifest for a project without `package.json`.
pub open spec fn seed_manifest() -> Seq<char> {
    "{\"dependencies\":{}}\n"@
}

/// The message for a failed `deno` run.
pub open spec fn deno_failure_message(out: DenoOutput) -> Seq<char> {
    if trimmed(out.stderr@).len() == 0 {
        "Deno command failed with exit status "@ + out.status@
    } else {
        "Deno command failed: "@ + trimmed(out.stderr@)
    }
}

/// The next phase, the next action, and what is learned (the `deno` path
/// and the staged manifest text), after event `e` in run `m`.
pub open spec fn staged_next(m: StagedRun, e: StagedEvent) -> (StagedPhase, StagedStep, Seq<char>, Seq<char>) {
    let root = m.project_root@;
    let stage = m.stage@;
    let deno = m.deno@;
    let pj = m.package_json@;
    match (m.phase, e) {
        (StagedPhase::ResolvingDeno, StagedEvent::Tool(Err(d))) => (
            StagedPhase::Done,
            StagedStep::Finish(Err(diagnostic_view(d)), false),
            deno,
            pj,
        ),
        (StagedPhase::ResolvingDeno, StagedEvent::Tool(Ok(p))) => (
            StagedPhase::CreatingStage,
            StagedStep::CreateDir(stage),
            p@,
            pj,
        ),
        (StagedPhase::CreatingStage, StagedEvent::Failed(err)) => (
            StagedPhase::Done,
            staged_fault(
                "Failed to create staging directory at '"@ + stage + "': "@ + err@,
                "Ensure the system temporary directory is writable"@,
                false,
            ),
            deno,
            pj,
        ),
        (StagedPhase::CreatingStage, _) => (
            StagedPhase::CheckingManifest,
            StagedStep::IsFile(path_join(root, "package.json"@)),
            deno,
            pj,
        ),
        (StagedPhase::CheckingManifest, StagedEvent::Exists(true)) => (
            StagedPhase::CopyingManifest,
            StagedStep::CopyFile(path_join(root, "package.json"@), path_join(stage, "package.json"@)),
            deno,
            pj,
        ),
        (StagedPhase::CheckingManifest, _) => (
            StagedPhase::SeedingManifest,
            StagedStep::WriteFile(path_join(stage, "package.json"@), seed_manifest()),
            deno,
            pj,
        ),
        (StagedPhase::CopyingManifest, StagedEvent::Failed(err)) => (
            StagedPhase::Done,
            staged_fault(
                "Failed to copy package.json to staging directory '"@ + stage + "': "@ + err@,
                "Ensure package.json is readable"@,
                true,
            ),
            deno,
            pj,
        ),
        (StagedPhase::SeedingManifest, StagedEvent::Failed(err)) => (
            StagedPhase::Done,
            staged_fault(
                "Failed to seed package.json in staging directory '"@ + stage + "': "@ + err@,
                "Ensure the system temporary directory is writable"@,
                true,
            ),
            deno,
            pj,
        ),
        (StagedPhase::CopyingManifest, _) | (StagedPhase::SeedingManifest, _) => (
            StagedPhase::CheckingLock,
            StagedStep::IsFile(path_join(root, "deno.lock"@)),
            deno,
            pj,
        ),
        (StagedPhase::CheckingLock, StagedEvent::Exists(true)) => (
            StagedPhase::CopyingLock,
            StagedStep::CopyFile(path_join(root, "deno.lock"@), path_join(stage, "deno.lock"@)),
            deno,
            pj,
        ),
        (StagedPhase::CopyingLock, StagedEvent::Failed(err)) => (
            StagedPhase::Done,
            staged_fault(
                "Failed to copy deno.lock to staging directory '"@ + stage + "': "@ + err@,
                "Ensure deno.lock is readable"@,
                true,
            ),
            deno,
            pj,
        ),
        (StagedPhase::CheckingLock, _) | (StagedPhase::CopyingLock, _) => (
            StagedPhase::RunningDeno,
            StagedStep::RunDeno(deno, stage, texts(m.args@)),
            deno,
            pj,
        ),
        (StagedPhase::RunningDeno, StagedEvent::Ran(Err(err))) => (
            StagedPhase::Done,
            staged_fault(
                "Failed to execute deno in staging directory '"@ + stage + "': "@ + err@,
                "Ensure deno can be executed"@,
                true,
            ),
            deno,
            pj,
        ),
        (StagedPhase::RunningDeno, StagedEvent::Ran(Ok(out))) => if out.success {
            (
                StagedPhase::ReadingManifest,
                StagedStep::ReadText(path_join(stage, "package.json"@)),
                deno,
                pj,
            )
        } else {
            (
                StagedPhase::Done,
                staged_fault(
                    deno_failure_message(out),
                    "Check the dependency specifier and network connectivity, then retry"@,
                    true,
                ),
                deno,
                pj,
            )
        },
        (StagedPhase::ReadingManifest, StagedEvent::Text(Err(err))) => (
            StagedPhase::Done,
            staged_fault(
                "Failed to read staged package.json at '"@ + path_join(stage, "package.json"@) + "': "@
                    + err@,
                "Check that deno produced a valid package.json"@,
                true,
            ),
            deno,
            pj,
        ),
        (StagedPhase::ReadingManifest, StagedEvent::Text(Ok(t))) => (
            StagedPhase::CheckingStagedLock,
            StagedStep::IsFile(path_join(stage, "deno.lock"@)),
            deno,
            t@,
        ),
        (StagedPhase::CheckingStagedLock, StagedEvent::Exists(true)) => (
            StagedPhase::ReadingLock,
            StagedStep::ReadText(path_join(stage, "deno.lock"@)),
            deno,
            pj,
        ),
        (StagedPhase::CheckingStagedLock, _) => (
            StagedPhase::Done,
            StagedStep::Finish(Ok((pj, None)), true),
            deno,
            pj,
        ),
        (StagedPhase::ReadingLock, StagedEvent::Text(Err(err))) => (
            StagedPhase::Done,
            staged_fault(
                "Failed to read staged deno.lock at '"@ + path_join(stage, "deno.lock"@) + "': "@ + err@,
                "Check that deno produced a valid deno.lock"@,
                true,
            ),
            deno,
            pj,
        ),
        (StagedPhase::ReadingLock, StagedEvent::Text(Ok(l))) => (
            StagedPhase::Done,
            StagedStep::Finish(Ok((pj, Some(l@))), true),
            deno,
            pj,
        ),
        _ => (StagedPhase::Done, StagedStep::ResolveDeno, deno, pj),
    }
}

fn copy_texts(v: &Vec<String>) -> (r: Vec<String>)
    ensures
        texts(r@) == texts(v@),
{
    let mut out: Vec<String> = Vec::new();
    let mut i: usize = 0;
    while i < v.len()
        invariant
            i <= v@.len(),
            texts(out@) == texts(v@).take(i as int),
        decreases v@.len() - i,
    {
        let ghost before = texts(out@);
        let c = v[i].clone();
        out.push(c);
        assert(texts(out@) =~= before.push(v@[i as int]@));
        assert(texts(v@).take(i + 1) =~= texts(v@).take(i as int).push(v@[i as int]@));
        i = i + 1;
    }
    assert(texts(v@).take(v@.len() as int) == texts(v@));
    out
}

fn fault(message: &Vec<char>, next_action: &str, remove: bool) -> (r: StagedAction)
    ensures
        staged_step_view(r) == staged_fault(message@, next_action@, remove),
{
    let m = string_from_chars(message);
    StagedAction::Finish {
        result: Err(Diagnostic::new(codes::TOOL_FAULT, Severity::Error, None, m.as_str(), next_action)),
        remove_stage: remove,
    }
}

fn quoted_error(a: &str, b: &str, err: &str) -> (r: Vec<char>)
    ensures
        r@ == a@ + b@ + "': "@ + err@,
{
    let mut m = lit(a);
    append_str(&mut m, b);
    append_str(&mut m, "': ");
    append_str(&mut m, err);
    m
}

impl StagedRun {
    /// Starts a staged run of `deno` with `args`, for the project at
    /// `project_root`, in the stage directory `stage` chosen by the caller:
    /// the first request resolves `deno`.
    pub fn new(project_root: &str, stage: &str, args: Vec<String>) -> (r: (StagedRun, StagedAction))
        ensures
            r.0.project_root@ == project_root@,
            r.0.stage@ == stage@,
            r.0.args == args,
            r.0.phase == StagedPhase::ResolvingDeno,
            staged_step_view(r.1) == StagedStep::ResolveDeno,
    {
        (
            StagedRun {
                project_root: project_root.to_string(),
                stage: stage.to_string(),
                args,
                deno: String::new(),
                package_json: String::new(),
                phase: StagedPhase::ResolvingDeno,
            },
            StagedAction::ResolveDeno,
        )
    }

    /// Takes how the last request went and decides the next one (see
    /// [`staged_next`]).
    pub fn step(&mut self, event: StagedEvent) -> (r: StagedAction)
        requires
            event_fits(old(self).phase, event),
        ensures
            final(self).project_root == old(self).project_root,
            final(self).stage == old(self).stage,
            final(self).args == old(self).args,
            ({
                let (p, a, d, t) = staged_next(*old(self), event);
                &&& final(self).phase == p
                &&& staged_step_view(r) == a
                &&& final(self).deno@ == d
                &&& final(self).package_json@ == t
            }),
    {
        let stage_manifest = join_path(self.stage.as_str(), "package.json");
        let stage_lock = join_path(self.stage.as_str(), "deno.lock");
        match (self.phase, event) {
            (StagedPhase::ResolvingDeno, StagedEvent::Tool(Err(d))) => {
                self.phase = StagedPhase::Done;
                StagedAction::Finish { result: Err(d), remove_stage: false }
            },
            (StagedPhase::ResolvingDeno, StagedEvent::Tool(Ok(p))) => {
                self.deno = p;
                self.phase = StagedPhase::CreatingStage;
                StagedAction::CreateDir(self.stage.clone())
            },
            (StagedPhase::CreatingStage, StagedEvent::Failed(err)) => {
                self.phase = StagedPhase::Done;
                let m = quoted_error("Failed to create staging directory at '", self.stage.as_str(), err.as_str());
                fault(&m, "Ensure the system temporary directory is writable", false)
            },
            (StagedPhase::CreatingStage, _) => {
                self.phase = StagedPhase::CheckingManifest;
                StagedAction::IsFile(join_path(self.project_root.as_str(), "package.json"))
            },
            (StagedPhase::CheckingManifest, StagedEvent::Exists(true)) => {
                self.phase = StagedPhase::CopyingManifest;
                StagedAction::CopyFile {
                    from: join_path(self.project_root.as_str(), "package.json"),
                    to: stage_manifest,
                }
            },
            (StagedPhase::CheckingManifest, _) => {
                self.phase = StagedPhase::SeedingManifest;
                StagedAction::WriteFile { path: stage_manifest, content: "{\"dependencies\":{}}\n".to_string() }
            },
            (StagedPhase::CopyingManifest, StagedEvent::Failed(err)) => {
                self.phase = StagedPhase::Done;
                let m = quoted_error(
                    "Failed to copy package.json to staging directory '",
                    self.stage.as_str(),
                    err.as_str(),
                );
                fault(&m, "Ensure package.json is readable", true)
            },
            (StagedPhase::SeedingManifest, StagedEvent::Failed(err)) => {
                self.phase = StagedPhase::Done;
                let m = quoted_error(
                    "Failed to seed package.json in staging directory '",
                    self.stage.as_str(),
                    err.as_str(),
                );
                fault(&m, "Ensure the system temporary directory is writable", true)
            },
            (StagedPhase::CopyingManifest, _) | (StagedPhase::SeedingManifest, _) => {
                self.phase = StagedPhase::CheckingLock;
                StagedAction::IsFile(join_path(self.project_root.as_str(), "deno.lock"))
            },
            (StagedPhase::CheckingLock, StagedEvent::Exists(true)) => {
                self.phase = StagedPhase::CopyingLock;
                StagedAction::CopyFile { from: join_path(self.project_root.as_str(), "deno.lock"), to: stage_lock }
            },
            (StagedPhase::CopyingLock, StagedEvent::Failed(err)) => {
                self.phase = StagedPhase::Done;
                let m = quoted_error(
                    "Failed to copy deno.lock to staging directory '",
                    self.stage.as_str(),
                    err.as_str(),
                );
                fault(&m, "Ensure deno.lock is readable", true)
            },
            (StagedPhase::CheckingLock, _) | (StagedPhase::CopyingLock, _) => {
                self.phase = StagedPhase::RunningDeno;
                StagedAction::RunDeno {
                    program: self.deno.clone(),
                    dir: self.stage.clone(),
                    args: copy_texts(&self.args),
                }
            },
            (StagedPhase::RunningDeno, StagedEvent::Ran(Err(err))) => {
                self.phase = StagedPhase::Done;
                let m = quoted_error("Failed to execute deno in staging directory '", self.stage.as_str(), err.as_str());
                fault(&m, "Ensure deno can be executed", true)
            },
            (StagedPhase::RunningDeno, StagedEvent::Ran(Ok(out))) => {
                if out.success {
                    self.phase = StagedPhase::ReadingManifest;
                    StagedAction::ReadText(stage_manifest)
                } else {
                    self.phase = StagedPhase::Done;
                    let stderr = trim_chars(&chars_of(out.stderr.as_str()));
                    let m = if stderr.len() == 0 {
                        let mut m = lit("Deno command failed with exit status ");
                        append_str(&mut m, out.status.as_str());
                        m
                    } else {
                        let mut m = lit("Deno command failed: ");
                        crate::text::append_chars(&mut m, &stderr);
                        m
                    };
                    fault(&m, "Check the dependency specifier and network connectivity, then retry", true)
                }
            },
            (StagedPhase::ReadingManifest, StagedEvent::Text(Err(err))) => {
                self.phase = StagedPhase::Done;
                let m = quoted_error("Failed to read staged package.json at '", stage_manifest.as_str(), err.as_str());
                fault(&m, "Check that deno produced a valid package.json", true)
            },
            (StagedPhase::ReadingManifest, StagedEvent::Text(Ok(t))) => {
                self.package_json = t;
                self.phase = StagedPhase::CheckingStagedLock;
                StagedAction::IsFile(stage_lock)
            },
            (StagedPhase::CheckingStagedLock, StagedEvent::Exists(true)) => {
                self.phase = StagedPhase::ReadingLock;
                StagedAction::ReadText(stage_lock)
            },
            (StagedPhase::CheckingStagedLock, _) => {
                self.phase = StagedPhase::Done;
                StagedAction::Finish {
                    result: Ok(StagedFiles { package_json: self.package_json.clone(), deno_lock: None }),
                    remove_stage: true,
                }
            },
            (StagedPhase::ReadingLock, StagedEvent::Text(Err(err))) => {
                self.phase = StagedPhase::Done;
                let m = quoted_error("Failed to read staged deno.lock at '", stage_lock.as_str(), err.as_str());
                fault(&m, "Check that deno produced a valid deno.lock", true)
            },
            (StagedPhase::ReadingLock, StagedEvent::Text(Ok(l))) => {
                self.phase = StagedPhase::Done;
                StagedAction::Finish {
                    result: Ok(StagedFiles { package_json: self.package_json.clone(), deno_lock: Some(l) }),
                    remove_stage: true,
                }
            },
            _ => {
                self.phase = StagedPhase::Done;
                StagedAction::ResolveDeno
            },
        }
    }
}


// ---------------------------------------------------------------------------
// Runs
// ---------------------------------------------------------------------------

/// The run `m` after the events `events`, and the actions it asked for:
/// the first action of `m`, then one per event until it is done. Event `i`
/// answers action `i`.
pub open spec fn staged_run(m: StagedRun, first: StagedStep, events: Seq<StagedEvent>) -> (StagedRun, Seq<StagedStep>)
    decreases events.len(),
{
    if events.len() == 0 {
        (m, seq![first])
    } else {
        let (r, acts) = staged_run(m, first, events.drop_last());
        if r.phase == StagedPhase::Done {
            (r, acts)
        } else {
            let (p, a, d, t) = staged_next(r, events.last());
            (
                StagedRun {
                    deno: if d == r.deno@ { r.deno } else { arbitrary_text(d) },
                    package_json: if t == r.package_json@ { r.package_json } else { arbitrary_text(t) },
                    phase: p,
                    ..r
                },
                acts.push(a),
            )
        }
    }
}

/// Some string with this text.
pub open spec fn arbitrary_text(t: Seq<char>) -> String {
    choose|s: String| s@ == t
}

/// Whether an action writes a file there (a write, or the destination of a
/// copy).
pub open spec fn writes_to(a: StagedStep, path: Seq<char>) -> bool {
    match a {
        StagedStep::WriteFile(p, _) => p == path,
        StagedStep::CopyFile(_, to) => to == path,
        _ => false,
    }
}

/// Whether an action writes any file.
pub open spec fn writes(a: StagedStep) -> bool {
    a is WriteFile || a is CopyFile
}

proof fn lemma_next_writes(m: StagedRun, e: StagedEvent)
    ensures
        ({
            let a = staged_next(m, e).1;
            writes(a) ==> writes_to(a, path_join(m.stage@, "package.json"@)) || writes_to(
                a,
                path_join(m.stage@, "deno.lock"@),
            )
        }),
{
}

proof fn lemma_run_fields(m: StagedRun, first: StagedStep, events: Seq<StagedEvent>)
    ensures
        staged_run(m, first, events).0.stage == m.stage,
        staged_run(m, first, events).0.project_root == m.project_root,
        staged_run(m, first, events).0.args == m.args,
        staged_run(m, first, events).1.len() >= 1,
        staged_run(m, first, events).1.len() <= events.len() + 1,
        staged_run(m, first, events).0.phase != StagedPhase::Done ==> staged_run(m, first, events).1.len()
            == events.len() + 1,
    decreases events.len(),
{
    if events.len() > 0 {
        lemma_run_fields(m, first, events.drop_last());
    }
}

/// Nothing is written outside the stage: in every run started by
/// [`StagedRun::new`], each file written or copied is the staged
/// `package.json` or `deno.lock`.
pub proof fn law_staged_writes_stay_in_stage(m: StagedRun, events: Seq<StagedEvent>, k: int)
    requires
        m.phase == StagedPhase::ResolvingDeno,
        0 <= k < staged_run(m, StagedStep::ResolveDeno, events).1.len(),
        writes(staged_run(m, StagedStep::ResolveDeno, events).1[k]),
    ensures
        writes_to(staged_run(m, StagedStep::ResolveDeno, events).1[k], path_join(m.stage@, "package.json"@))
            || writes_to(staged_run(m, StagedStep::ResolveDeno, events).1[k], path_join(m.stage@, "deno.lock"@)),
    decreases events.len(),
{
    if events.len() > 0 {
        let prev = events.drop_last();
        let (r, acts) = staged_run(m, StagedStep::ResolveDeno, prev);
        lemma_run_fields(m, StagedStep::ResolveDeno, prev);
        if k < acts.len() {
            law_staged_writes_stay_in_stage(m, prev, k);
        } else {
            lemma_next_writes(r, events.last());
        }
    }
}

/// Whether the run created the stage: a `CreateDir` that was not answered
/// by a failure.
pub open spec fn stage_created(acts: Seq<StagedStep>, events: Seq<StagedEvent>) -> bool {
    exists|j: int| 0 <= j < acts.len() && j < events.len() && (#[trigger] acts[j]) is CreateDir && !(
    events[j] is Failed)
}

proof fn lemma_created_invariant(m: StagedRun, events: Seq<StagedEvent>)
    requires
        m.phase == StagedPhase::ResolvingDeno,
    ensures
        ({
            let (r, acts) = staged_run(m, StagedStep::ResolveDeno, events);
            &&& (r.phase == StagedPhase::ResolvingDeno || r.phase == StagedPhase::CreatingStage)
                ==> !stage_created(acts, events)
            &&& r.phase == StagedPhase::CreatingStage ==> acts.last() is CreateDir
            &&& r.phase == StagedPhase::Done ==> !(acts.last() is CreateDir)
            &&& (r.phase != StagedPhase::ResolvingDeno && r.phase != StagedPhase::CreatingStage
                && r.phase != StagedPhase::Done) ==> stage_created(acts, events)
            &&& forall|k: int|
                0 <= k < acts.len() && (#[trigger] acts[k]) is Finish ==> (k == acts.len() - 1 && r.phase
                    == StagedPhase::Done && (acts[k]->Finish_1 <==> stage_created(acts, events)))
        }),
    decreases events.len(),
{
    lemma_run_fields(m, StagedStep::ResolveDeno, events);
    if events.len() > 0 {
        let prev = events.drop_last();
        lemma_created_invariant(m, prev);
        lemma_run_fields(m, StagedStep::ResolveDeno, prev);
        let (r0, a0) = staged_run(m, StagedStep::ResolveDeno, prev);
        let (r, acts) = staged_run(m, StagedStep::ResolveDeno, events);
        if r0.phase != StagedPhase::Done {
            let e = events.last();
            let n = a0.len();
            assert(acts == a0.push(staged_next(r0, e).1));
            assert forall|j: int| 0 <= j < a0.len() && j < prev.len() implies (a0[j] == acts[j] && prev[j]
                == events[j]) by {}
            if stage_created(a0, prev) {
                let j = choose|j: int| 0 <= j < a0.len() && j < prev.len() && (#[trigger] a0[j]) is CreateDir
                    && !(prev[j] is Failed);
                assert(acts[j] == a0[j]);
                assert(stage_created(acts, events));
            }
            if r0.phase == StagedPhase::CreatingStage && !(e is Failed) {
                assert(acts[n - 1] == a0.last());
                assert(events[n - 1] == e);
                assert(stage_created(acts, events));
            }
            if stage_created(acts, events) && !stage_created(a0, prev) {
                let j = choose|j: int| 0 <= j < acts.len() && j < events.len() && (#[trigger] acts[j]) is CreateDir
                    && !(events[j] is Failed);
                if j < n - 1 {
                    assert(acts[j] == a0[j]);
                    assert(events[j] == prev[j]);
                } else if j == n - 1 {
                    assert(acts[j] == a0.last());
                } else {
                    assert(acts[j] == staged_next(r0, e).1);
                }
                assert(r0.phase == StagedPhase::CreatingStage && !(e is Failed));
            }
            assert forall|k: int| 0 <= k < acts.len() && (#[trigger] acts[k]) is Finish implies (k == acts.len() - 1
                && r.phase == StagedPhase::Done && (acts[k]->Finish_1 <==> stage_created(acts, events))) by {
                if k < n {
                    assert(acts[k] == a0[k]);
                }
            }
        } else {
            assert forall|k: int| 0 <= k < acts.len() && (#[trigger] acts[k]) is Finish implies (k == acts.len() - 1
                && r.phase == StagedPhase::Done && (acts[k]->Finish_1 <==> stage_created(acts, events))) by {
                if stage_created(a0, prev) {
                    let j = choose|j: int| 0 <= j < a0.len() && j < prev.len() && (#[trigger] a0[j]) is CreateDir
                        && !(prev[j] is Failed);
                    assert(events[j] == prev[j]);
                }
                if stage_created(acts, events) {
                    let j = choose|j: int| 0 <= j < acts.len() && j < events.len() && (#[trigger] acts[j]) is CreateDir
                        && !(events[j] is Failed);
                    if j < prev.len() {
                        assert(events[j] == prev[j]);
                    } else {
                        lemma_run_fields(m, StagedStep::ResolveDeno, prev);
                        assert(j == acts.len() - 1);
                        assert(acts[j] == acts.last());
                    }
                }
            }
        }
    }
}

/// The stage is removed on every exit once it exists: when a run started
/// by [`StagedRun::new`] finishes, it asks to remove the stage exactly when
/// the stage was created.
pub proof fn law_stage_removed_once_created(m: StagedRun, events: Seq<StagedEvent>, k: int)
    requires
        m.phase == StagedPhase::ResolvingDeno,
        0 <= k < staged_run(m, StagedStep::ResolveDeno, events).1.len(),
        staged_run(m, StagedStep::ResolveDeno, events).1[k] is Finish,
    ensures
        staged_run(m, StagedStep::ResolveDeno, events).1[k]->Finish_1 <==> stage_created(
            staged_run(m, StagedStep::ResolveDeno, events).1,
            events,
        ),
{
    lemma_created_invariant(m, events);
}

} // verus!
