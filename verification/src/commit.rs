//! The commit protocol of dependency state: the decisions, step by step,
//! that replace or delete `deno.lock` and `package.json` in the project
//! root. The caller performs each requested file operation and reports how
//! it went.
//!
//! For a non-empty state both texts are first written to temporary files
//! beside the targets; then `deno.lock` is renamed into place, and only then
//! `package.json`, so the canonical declaration changes last. For the empty
//! state `deno.lock` is deleted first and `package.json` second.

use vstd::prelude::*;

use crate::deps::{fault_is, CommitOutcome, StagedFiles};
use crate::diagnostics::ToolFault;
use crate::text::{append_str, lit, string_from_chars};
use crate::tools::{join_path, path_join};

verus! {

/// Where a commit stands.
#[derive(Debug, Clone, Copy, PartialEq, Eq, Structural)]
pub enum CommitPhase {
    /// Waiting to learn whether the root is a directory.
    CheckingRoot,
    /// Writing the temporary lock file.
    WritingLock,
    /// Writing the temporary manifest file.
    WritingManifest,
    /// Renaming the temporary lock file onto `deno.lock`.
    RenamingLock,
    /// Renaming the temporary manifest file onto `package.json`.
    RenamingManifest,
    /// Deleting `deno.lock`.
    DeletingLock,
    /// Deleting `package.json`.
    DeletingManifest,
    /// Finished.
    Done,
}

/// How the requested operation went. For the root check, success means
/// that the root is a directory. For a deletion, a file that is not there
/// counts as deleted.
#[derive(Debug, Clone, PartialEq, Eq)]
pub enum CommitEvent {
    Succeeded,
    Failed(String),
}

/// What the commit asks of the caller next.
#[derive(Debug, PartialEq, Eq)]
pub enum CommitAction {
    /// Check whether this path is a directory.
    CheckRoot(String),
    /// Write this text to this path.
    WriteFile { path: String, content: String },
    /// Rename a file.
    Rename { from: String, to: String },
    /// Delete this file.
    RemoveFile(String),
    /// Stop: the result, after removing the listed temporary files (in
    /// order, ignoring failures).
    Finish { result: Result<(), ToolFault>, discard: Vec<String> },
}

/// A commit in progress: the root, the temporary file paths chosen beside
/// the targets, the outcome to commit, and where it stands.
#[derive(Debug)]
pub struct DependencyCommit {
    pub root: String,
    pub temp_lock: String,
    pub temp_manifest: String,
    pub outcome: CommitOutcome,
    pub phase: CommitPhase,
}

/// A commit action over plain values; a finish carries the fault's message
/// and path.
pub enum CommitStep {
    CheckRoot(Seq<char>),
    WriteFile(Seq<char>, Seq<char>),
    Rename(Seq<char>, Seq<char>),
    RemoveFile(Seq<char>),
    Finish(Option<(Seq<char>, Option<Seq<char>>)>, Seq<Seq<char>>),
}

pub open spec fn lock_target(root: Seq<char>) -> Seq<char> {
    path_join(root, "deno.lock"@)
}

pub open spec fn manifest_target(root: Seq<char>) -> Seq<char> {
    path_join(root, "package.json"@)
}

pub open spec fn step_view(a: CommitAction) -> CommitStep {
    match a {
        CommitAction::CheckRoot(p) => CommitStep::CheckRoot(p@),
        CommitAction::WriteFile { path, content } => CommitStep::WriteFile(path@, content@),
        CommitAction::Rename { from, to } => CommitStep::Rename(from@, to@),
        CommitAction::RemoveFile(p) => CommitStep::RemoveFile(p@),
        CommitAction::Finish { result, discard } => CommitStep::Finish(
            match result {
                Ok(()) => None,
                Err(f) => Some(
                    (
                        f.message@,
                        match f.path {
                            Some(p) => Some(p@),
                            None => None,
                        },
                    ),
                ),
            },
            crate::pages::texts(discard@),
        ),
    }
}

/// A failed finish with this message and path, discarding `discard`.
pub open spec fn fail(message: Seq<char>, path: Seq<char>, discard: Seq<Seq<char>>) -> CommitStep {
    CommitStep::Finish(Some((message, Some(path))), discard)
}

/// The phase and the action after event `e` in phase `p`, for a commit of
/// `outcome` at `root` with temporary files `tl` and `tm`.
pub open spec fn commit_next(
    root: Seq<char>,
    tl: Seq<char>,
    tm: Seq<char>,
    outcome: CommitOutcome,
    p: CommitPhase,
    e: CommitEvent,
) -> (CommitPhase, CommitStep) {
    let lt = lock_target(root);
    let mt = manifest_target(root);
    match (p, e) {
        (CommitPhase::CheckingRoot, CommitEvent::Failed(_)) => (
            CommitPhase::Done,
            fail("Project root directory not found: "@ + root, root, seq![]),
        ),
        (CommitPhase::CheckingRoot, CommitEvent::Succeeded) => match outcome {
            CommitOutcome::NonEmpty { package_json, deno_lock: None } => (
                CommitPhase::Done,
                fail("Missing deno.lock content for non-empty dependency commit"@, lt, seq![]),
            ),
            CommitOutcome::NonEmpty { package_json, deno_lock: Some(l) } => (
                CommitPhase::WritingLock,
                CommitStep::WriteFile(tl, l@),
            ),
            CommitOutcome::Empty => (CommitPhase::DeletingLock, CommitStep::RemoveFile(lt)),
        },
        (CommitPhase::WritingLock, CommitEvent::Failed(err)) => (
            CommitPhase::Done,
            fail("Failed to write temporary lock file at '"@ + tl + "': "@ + err@, tl, seq![tl]),
        ),
        (CommitPhase::WritingLock, CommitEvent::Succeeded) => (
            CommitPhase::WritingManifest,
            CommitStep::WriteFile(
                tm,
                match outcome {
                    CommitOutcome::NonEmpty { package_json, deno_lock } => package_json@,
                    CommitOutcome::Empty => seq![],
                },
            ),
        ),
        (CommitPhase::WritingManifest, CommitEvent::Failed(err)) => (
            CommitPhase::Done,
            fail(
                "Failed to write temporary manifest file at '"@ + tm + "': "@ + err@,
                tm,
                seq![tm, tl],
            ),
        ),
        (CommitPhase::WritingManifest, CommitEvent::Succeeded) => (
            CommitPhase::RenamingLock,
            CommitStep::Rename(tl, lt),
        ),
        (CommitPhase::RenamingLock, CommitEvent::Failed(err)) => (
            CommitPhase::Done,
            fail("Failed to rename temporary lock file to '"@ + lt + "': "@ + err@, lt, seq![tm, tl]),
        ),
        (CommitPhase::RenamingLock, CommitEvent::Succeeded) => (
            CommitPhase::RenamingManifest,
            CommitStep::Rename(tm, mt),
        ),
        (CommitPhase::RenamingManifest, CommitEvent::Failed(err)) => (
            CommitPhase::Done,
            fail("Failed to rename temporary manifest file to '"@ + mt + "': "@ + err@, mt, seq![tm]),
        ),
        (CommitPhase::RenamingManifest, CommitEvent::Succeeded) => (
            CommitPhase::Done,
            CommitStep::Finish(None, seq![]),
        ),
        (CommitPhase::DeletingLock, CommitEvent::Failed(err)) => (
            CommitPhase::Done,
            fail(
                "Failed to remove lock file '"@ + lt + "' during empty-state commit: "@ + err@,
                lt,
                seq![],
            ),
        ),
        (CommitPhase::DeletingLock, CommitEvent::Succeeded) => (
            CommitPhase::DeletingManifest,
            CommitStep::RemoveFile(mt),
        ),
        (CommitPhase::DeletingManifest, CommitEvent::Failed(err)) => (
            CommitPhase::Done,
            fail(
                "Failed to remove manifest file '"@ + mt + "' during empty-state commit: "@ + err@,
                mt,
                seq![],
            ),
        ),
        (CommitPhase::DeletingManifest, CommitEvent::Succeeded) => (
            CommitPhase::Done,
            CommitStep::Finish(None, seq![]),
        ),
        (CommitPhase::Done, _) => (CommitPhase::Done, CommitStep::Finish(None, seq![])),
    }
}

fn failure(message: &Vec<char>, path: &String, discard: Vec<String>) -> (r: CommitAction)
    ensures
        step_view(r) == fail(message@, path@, crate::pages::texts(discard@)),
{
    let m = string_from_chars(message);
    CommitAction::Finish { result: Err(ToolFault::new(m.as_str(), Some(path.as_str()))), discard }
}

fn one(a: &String) -> (r: Vec<String>)
    ensures
        crate::pages::texts(r@) == seq![a@],
{
    let mut v: Vec<String> = Vec::new();
    v.push(a.clone());
    assert(crate::pages::texts(v@) =~= seq![a@]);
    v
}

fn two(a: &String, b: &String) -> (r: Vec<String>)
    ensures
        crate::pages::texts(r@) == seq![a@, b@],
{
    let mut v: Vec<String> = Vec::new();
    v.push(a.clone());
    v.push(b.clone());
    assert(crate::pages::texts(v@) =~= seq![a@, b@]);
    v
}

fn message(a: &str, b: &str, c: &str, d: &str) -> (r: Vec<char>)
    ensures
        r@ == a@ + b@ + c@ + d@,
{
    let mut m = lit(a);
    append_str(&mut m, b);
    append_str(&mut m, c);
    append_str(&mut m, d);
    m
}

impl DependencyCommit {
    /// Starts a commit of `outcome` at `root`, with temporary files
    /// `temp_lock` and `temp_manifest` chosen by the caller beside the
    /// targets: the first request is the root check.
    pub fn new(root: &str, temp_lock: &str, temp_manifest: &str, outcome: CommitOutcome) -> (r: (
        DependencyCommit,
        CommitAction,
    ))
        ensures
            r.0.root@ == root@,
            r.0.temp_lock@ == temp_lock@,
            r.0.temp_manifest@ == temp_manifest@,
            r.0.outcome == outcome,
            r.0.phase == CommitPhase::CheckingRoot,
            step_view(r.1) == CommitStep::CheckRoot(root@),
    {
        (
            DependencyCommit {
                root: root.to_string(),
                temp_lock: temp_lock.to_string(),
                temp_manifest: temp_manifest.to_string(),
                outcome,
                phase: CommitPhase::CheckingRoot,
            },
            CommitAction::CheckRoot(root.to_string()),
        )
    }

    /// Takes how the last request went and decides the next one (see
    /// [`commit_next`]).
    pub fn step(&mut self, event: CommitEvent) -> (r: CommitAction)
        requires
            old(self).phase != CommitPhase::Done,
        ensures
            final(self).root == old(self).root,
            final(self).temp_lock == old(self).temp_lock,
            final(self).temp_manifest == old(self).temp_manifest,
            final(self).outcome == old(self).outcome,
            (final(self).phase, step_view(r)) == commit_next(
                old(self).root@,
                old(self).temp_lock@,
                old(self).temp_manifest@,
                old(self).outcome,
                old(self).phase,
                event,
            ),
    {
        let lt = join_path(self.root.as_str(), "deno.lock");
        let mt = join_path(self.root.as_str(), "package.json");
        match self.phase {
            CommitPhase::CheckingRoot => match event {
                CommitEvent::Failed(_) => {
                    self.phase = CommitPhase::Done;
                    let mut m = lit("Project root directory not found: ");
                    append_str(&mut m, self.root.as_str());
                    let d: Vec<String> = Vec::new();
                    assert(crate::pages::texts(d@) =~= seq![]);
                    failure(&m, &self.root, d)
                },
                CommitEvent::Succeeded => match &self.outcome {
                    CommitOutcome::NonEmpty { package_json, deno_lock: None } => {
                        self.phase = CommitPhase::Done;
                        let m = lit("Missing deno.lock content for non-empty dependency commit");
                        let d: Vec<String> = Vec::new();
                        assert(crate::pages::texts(d@) =~= seq![]);
                        failure(&m, &lt, d)
                    },
                    CommitOutcome::NonEmpty { package_json, deno_lock: Some(l) } => {
                        let content = l.clone();
                        self.phase = CommitPhase::WritingLock;
                        CommitAction::WriteFile { path: self.temp_lock.clone(), content }
                    },
                    CommitOutcome::Empty => {
                        self.phase = CommitPhase::DeletingLock;
                        CommitAction::RemoveFile(lt)
                    },
                },
            },
            CommitPhase::WritingLock => match event {
                CommitEvent::Failed(err) => {
                    self.phase = CommitPhase::Done;
                    let m = message(
                        "Failed to write temporary lock file at '",
                        self.temp_lock.as_str(),
                        "': ",
                        err.as_str(),
                    );
                    let d = one(&self.temp_lock);
                    failure(&m, &self.temp_lock, d)
                },
                CommitEvent::Succeeded => {
                    let content = match &self.outcome {
                        CommitOutcome::NonEmpty { package_json, deno_lock } => package_json.clone(),
                        CommitOutcome::Empty => String::new(),
                    };
                    self.phase = CommitPhase::WritingManifest;
                    CommitAction::WriteFile { path: self.temp_manifest.clone(), content }
                },
            },
            CommitPhase::WritingManifest => match event {
                CommitEvent::Failed(err) => {
                    self.phase = CommitPhase::Done;
                    let m = message(
                        "Failed to write temporary manifest file at '",
                        self.temp_manifest.as_str(),
                        "': ",
                        err.as_str(),
                    );
                    let d = two(&self.temp_manifest, &self.temp_lock);
                    failure(&m, &self.temp_manifest, d)
                },
                CommitEvent::Succeeded => {
                    self.phase = CommitPhase::RenamingLock;
                    CommitAction::Rename { from: self.temp_lock.clone(), to: lt }
                },
            },
            CommitPhase::RenamingLock => match event {
                CommitEvent::Failed(err) => {
                    self.phase = CommitPhase::Done;
                    let m = message("Failed to rename temporary lock file to '", lt.as_str(), "': ", err.as_str());
                    let d = two(&self.temp_manifest, &self.temp_lock);
                    failure(&m, &lt, d)
                },
                CommitEvent::Succeeded => {
                    self.phase = CommitPhase::RenamingManifest;
                    CommitAction::Rename { from: self.temp_manifest.clone(), to: mt }
                },
            },
            CommitPhase::RenamingManifest => match event {
                CommitEvent::Failed(err) => {
                    self.phase = CommitPhase::Done;
                    let m = message(
                        "Failed to rename temporary manifest file to '",
                        mt.as_str(),
                        "': ",
                        err.as_str(),
                    );
                    let d = one(&self.temp_manifest);
                    failure(&m, &mt, d)
                },
                CommitEvent::Succeeded => {
                    self.phase = CommitPhase::Done;
                    let d: Vec<String> = Vec::new();
                    assert(crate::pages::texts(d@) =~= seq![]);
                    CommitAction::Finish { result: Ok(()), discard: d }
                },
            },
            CommitPhase::DeletingLock => match event {
                CommitEvent::Failed(err) => {
                    self.phase = CommitPhase::Done;
                    let m = message(
                        "Failed to remove lock file '",
                        lt.as_str(),
                        "' during empty-state commit: ",
                        err.as_str(),
                    );
                    let d: Vec<String> = Vec::new();
                    assert(crate::pages::texts(d@) =~= seq![]);
                    failure(&m, &lt, d)
                },
                CommitEvent::Succeeded => {
                    self.phase = CommitPhase::DeletingManifest;
                    CommitAction::RemoveFile(mt)
                },
            },
            CommitPhase::DeletingManifest => match event {
                CommitEvent::Failed(err) => {
                    self.phase = CommitPhase::Done;
                    let m = message(
                        "Failed to remove manifest file '",
                        mt.as_str(),
                        "' during empty-state commit: ",
                        err.as_str(),
                    );
                    let d: Vec<String> = Vec::new();
                    assert(crate::pages::texts(d@) =~= seq![]);
                    failure(&m, &mt, d)
                },
                CommitEvent::Succeeded => {
                    self.phase = CommitPhase::Done;
                    let d: Vec<String> = Vec::new();
                    assert(crate::pages::texts(d@) =~= seq![]);
                    CommitAction::Finish { result: Ok(()), discard: d }
                },
            },
            CommitPhase::Done => {
                let d: Vec<String> = Vec::new();
                assert(crate::pages::texts(d@) =~= seq![]);
                CommitAction::Finish { result: Ok(()), discard: d }
            },
        }
    }
}



/// Starts committing `outcome` to the project at `root` (see
/// [`DependencyCommit`]); the caller picks the temporary file paths beside
/// the targets.
pub fn commit_dependencies(root: &str, outcome: CommitOutcome, temp_lock: &str, temp_manifest: &str) -> (r: (
    DependencyCommit,
    CommitAction,
))
    ensures
        r.0.root@ == root@,
        r.0.temp_lock@ == temp_lock@,
        r.0.temp_manifest@ == temp_manifest@,
        r.0.outcome == outcome,
        r.0.phase == CommitPhase::CheckingRoot,
        step_view(r.1) == CommitStep::CheckRoot(root@),
{
    DependencyCommit::new(root, temp_lock, temp_manifest, outcome)
}

/// Starting a commit: [`commit_dependencies`].
pub fn commit(root: &str, outcome: CommitOutcome, temp_lock: &str, temp_manifest: &str) -> (r: (
    DependencyCommit,
    CommitAction,
))
    ensures
        r.0.root@ == root@,
        r.0.temp_lock@ == temp_lock@,
        r.0.temp_manifest@ == temp_manifest@,
        r.0.outcome == outcome,
        r.0.phase == CommitPhase::CheckingRoot,
        step_view(r.1) == CommitStep::CheckRoot(root@),
{
    commit_dependencies(root, outcome, temp_lock, temp_manifest)
}

/// Starts committing staged files, or the empty state for `None`.
pub fn commit_staged(root: &str, files: Option<&StagedFiles>, temp_lock: &str, temp_manifest: &str) -> (r: (
    DependencyCommit,
    CommitAction,
))
    ensures
        r.0.root@ == root@,
        r.0.temp_lock@ == temp_lock@,
        r.0.temp_manifest@ == temp_manifest@,
        r.0.outcome == (match files {
            Some(f) => CommitOutcome::NonEmpty { package_json: f.package_json, deno_lock: f.deno_lock },
            None => CommitOutcome::Empty,
        }),
        r.0.phase == CommitPhase::CheckingRoot,
        step_view(r.1) == CommitStep::CheckRoot(root@),
{
    let outcome = match files {
        Some(f) => CommitOutcome::from_staged(f),
        None => CommitOutcome::Empty,
    };
    commit_dependencies(root, outcome, temp_lock, temp_manifest)
}

// ---------------------------------------------------------------------------
// Runs of the protocol
// ---------------------------------------------------------------------------

/// The phase and the actions of a commit of `outcome` at `root` (temporary
/// files `tl`, `tm`) after the events `events`: the root check first, then
/// one action per event, until it is done. Event `i` answers action `i`.
pub open spec fn commit_run(
    root: Seq<char>,
    tl: Seq<char>,
    tm: Seq<char>,
    outcome: CommitOutcome,
    events: Seq<CommitEvent>,
) -> (CommitPhase, Seq<CommitStep>)
    decreases events.len(),
{
    if events.len() == 0 {
        (CommitPhase::CheckingRoot, seq![CommitStep::CheckRoot(root)])
    } else {
        let (p, acts) = commit_run(root, tl, tm, outcome, events.drop_last());
        if p == CommitPhase::Done {
            (p, acts)
        } else {
            let (q, a) = commit_next(root, tl, tm, outcome, p, events.last());
            (q, acts.push(a))
        }
    }
}

/// Whether an action writes, renames (from or onto) or deletes `path`.
pub open spec fn changes(s: CommitStep, path: Seq<char>) -> bool {
    match s {
        CommitStep::WriteFile(p, _) => p == path,
        CommitStep::Rename(from, to) => from == path || to == path,
        CommitStep::RemoveFile(p) => p == path,
        _ => false,
    }
}

/// The temporary files lie apart from the two targets.
pub open spec fn temps_apart(root: Seq<char>, tl: Seq<char>, tm: Seq<char>) -> bool {
    &&& tl != lock_target(root)
    &&& tl != manifest_target(root)
    &&& tm != lock_target(root)
    &&& tm != manifest_target(root)
}

proof fn lemma_targets_differ(root: Seq<char>)
    ensures
        lock_target(root) != manifest_target(root),
{
    reveal_strlit("deno.lock");
    reveal_strlit("package.json");
    let l = lock_target(root);
    let m = manifest_target(root);
    assert(l.last() == 'k');
    assert(m.last() == 'n');
}

proof fn lemma_run_invariant(
    root: Seq<char>,
    tl: Seq<char>,
    tm: Seq<char>,
    outcome: CommitOutcome,
    events: Seq<CommitEvent>,
)
    requires
        temps_apart(root, tl, tm),
    ensures
        ({
            let (p, acts) = commit_run(root, tl, tm, outcome, events);
            let lt = lock_target(root);
            let mt = manifest_target(root);
            &&& 1 <= acts.len() <= events.len() + 1
            &&& p != CommitPhase::Done ==> acts.len() == events.len() + 1
            &&& (p == CommitPhase::RenamingLock || p == CommitPhase::DeletingLock) ==> changes(
                acts.last(),
                lt,
            )
            &&& forall|k: int|
                0 <= k < acts.len() && changes(#[trigger] acts[k], mt) ==> exists|j: int|
                    0 <= j < k && changes(#[trigger] acts[j], lt) && events[j]
                        == CommitEvent::Succeeded
        }),
    decreases events.len(),
{
    let lt = lock_target(root);
    let mt = manifest_target(root);
    lemma_targets_differ(root);
    if events.len() == 0 {
        let (p, acts) = commit_run(root, tl, tm, outcome, events);
        assert(acts[0] == CommitStep::CheckRoot(root));
    } else {
        let prev = events.drop_last();
        lemma_run_invariant(root, tl, tm, outcome, prev);
        let (p0, a0) = commit_run(root, tl, tm, outcome, prev);
        if p0 != CommitPhase::Done {
            let e = events.last();
            let (q, a) = commit_next(root, tl, tm, outcome, p0, e);
            let acts = a0.push(a);
            assert forall|k: int| 0 <= k < acts.len() && changes(#[trigger] acts[k], mt) implies exists|j: int|
                0 <= j < k && changes(#[trigger] acts[j], lt) && events[j] == CommitEvent::Succeeded by {
                if k < a0.len() {
                    assert(acts[k] == a0[k]);
                    let j = choose|j: int| 0 <= j < k && changes(#[trigger] a0[j], lt) && prev[j]
                        == CommitEvent::Succeeded;
                    assert(acts[j] == a0[j]);
                    assert(events[j] == prev[j]);
                } else {
                    assert(acts[k] == a);
                    let j = a0.len() - 1;
                    assert(acts[j] == a0.last());
                    assert(events[j] == e);
                }
            }
        } else {
            let (p, acts) = commit_run(root, tl, tm, outcome, events);
            assert forall|k: int| 0 <= k < acts.len() && changes(#[trigger] acts[k], mt) implies exists|j: int|
                0 <= j < k && changes(#[trigger] acts[j], lt) && events[j] == CommitEvent::Succeeded by {
                let j = choose|j: int| 0 <= j < k && changes(#[trigger] a0[j], lt) && prev[j]
                    == CommitEvent::Succeeded;
                assert(events[j] == prev[j]);
            }
        }
    }
}

/// `deno.lock` changes first: in every run of the commit, an action that
/// changes `package.json` comes after an action that changed `deno.lock`
/// and succeeded (for a non-empty state, the rename of the lock; for the
/// empty state, its deletion).
pub proof fn law_lock_changes_before_manifest(
    root: Seq<char>,
    tl: Seq<char>,
    tm: Seq<char>,
    outcome: CommitOutcome,
    events: Seq<CommitEvent>,
    k: int,
)
    requires
        temps_apart(root, tl, tm),
        0 <= k < commit_run(root, tl, tm, outcome, events).1.len(),
        changes(commit_run(root, tl, tm, outcome, events).1[k], manifest_target(root)),
    ensures
        exists|j: int|
            0 <= j < k && changes(#[trigger] commit_run(root, tl, tm, outcome, events).1[j], lock_target(root))
                && events[j] == CommitEvent::Succeeded,
{
    lemma_run_invariant(root, tl, tm, outcome, events);
}

/// A commit that never gets to change `deno.lock` (a fault before the
/// commit proper) leaves `package.json` untouched as well.
pub proof fn law_no_lock_change_leaves_manifest(
    root: Seq<char>,
    tl: Seq<char>,
    tm: Seq<char>,
    outcome: CommitOutcome,
    events: Seq<CommitEvent>,
)
    requires
        temps_apart(root, tl, tm),
        forall|j: int|
            0 <= j < commit_run(root, tl, tm, outcome, events).1.len() ==> !changes(
                #[trigger] commit_run(root, tl, tm, outcome, events).1[j],
                lock_target(root),
            ),
    ensures
        forall|k: int|
            0 <= k < commit_run(root, tl, tm, outcome, events).1.len() ==> !changes(
                #[trigger] commit_run(root, tl, tm, outcome, events).1[k],
                manifest_target(root),
            ),
{
    lemma_run_invariant(root, tl, tm, outcome, events);
}


/// An action touches only the commit's own files: it writes a temporary
/// file, renames a temporary file onto its target, deletes a target, or
/// discards temporary files.
pub open spec fn touches_own_files(root: Seq<char>, tl: Seq<char>, tm: Seq<char>, s: CommitStep) -> bool {
    match s {
        CommitStep::CheckRoot(_) => true,
        CommitStep::WriteFile(p, _) => p == tl || p == tm,
        CommitStep::Rename(from, to) => (from == tl && to == lock_target(root)) || (from == tm && to == manifest_target(
            root,
        )),
        CommitStep::RemoveFile(p) => p == lock_target(root) || p == manifest_target(root),
        CommitStep::Finish(_, discard) => forall|i: int| 0 <= i < discard.len() ==> (#[trigger] discard[i]) == tl
            || discard[i] == tm,
    }
}

proof fn lemma_next_touches_own_files(
    root: Seq<char>,
    tl: Seq<char>,
    tm: Seq<char>,
    outcome: CommitOutcome,
    p: CommitPhase,
    e: CommitEvent,
)
    ensures
        touches_own_files(root, tl, tm, commit_next(root, tl, tm, outcome, p, e).1),
{
}

/// A commit touches nothing but its own files: in every run, each file
/// written is a temporary file, each rename moves a temporary file onto its
/// target, each deletion removes `deno.lock` or `package.json`, and only
/// temporary files are discarded.
pub proof fn law_commit_touches_only_its_files(
    root: Seq<char>,
    tl: Seq<char>,
    tm: Seq<char>,
    outcome: CommitOutcome,
    events: Seq<CommitEvent>,
)
    ensures
        forall|k: int|
            0 <= k < commit_run(root, tl, tm, outcome, events).1.len() ==> touches_own_files(
                root,
                tl,
                tm,
                #[trigger] commit_run(root, tl, tm, outcome, events).1[k],
            ),
    decreases events.len(),
{
    if events.len() > 0 {
        let prev = events.drop_last();
        law_commit_touches_only_its_files(root, tl, tm, outcome, prev);
        let (p0, a0) = commit_run(root, tl, tm, outcome, prev);
        if p0 != CommitPhase::Done {
            lemma_next_touches_own_files(root, tl, tm, outcome, p0, events.last());
            let acts = a0.push(commit_next(root, tl, tm, outcome, p0, events.last()).1);
            assert forall|k: int| 0 <= k < acts.len() implies touches_own_files(root, tl, tm, #[trigger] acts[k]) by {
                if k < a0.len() {
                    assert(acts[k] == a0[k]);
                }
            }
        }
    } else {
        assert(commit_run(root, tl, tm, outcome, events).1 == seq![CommitStep::CheckRoot(root)]);
    }
}

} // verus!
