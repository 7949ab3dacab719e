use wda_core::commit::{commit_staged, CommitAction, CommitEvent, CommitPhase, DependencyCommit};
use wda_core::deps::{CommitOutcome, StagedFiles};

fn start(outcome: CommitOutcome) -> (DependencyCommit, CommitAction) {
    DependencyCommit::new("proj", "proj/.deno.lock.tmp", "proj/.package.json.tmp", outcome)
}

#[test]
fn non_empty_commit_renames_lock_before_manifest() {
    let (mut c, first) = start(CommitOutcome::non_empty("{\"dependencies\":{}}\n", "{\"version\":\"4\"}"));
    assert_eq!(first, CommitAction::CheckRoot("proj".to_string()));
    assert_eq!(
        c.step(CommitEvent::Succeeded),
        CommitAction::WriteFile { path: "proj/.deno.lock.tmp".to_string(), content: "{\"version\":\"4\"}".to_string() }
    );
    assert_eq!(
        c.step(CommitEvent::Succeeded),
        CommitAction::WriteFile {
            path: "proj/.package.json.tmp".to_string(),
            content: "{\"dependencies\":{}}\n".to_string()
        }
    );
    assert_eq!(
        c.step(CommitEvent::Succeeded),
        CommitAction::Rename { from: "proj/.deno.lock.tmp".to_string(), to: "proj/deno.lock".to_string() }
    );
    assert_eq!(
        c.step(CommitEvent::Succeeded),
        CommitAction::Rename { from: "proj/.package.json.tmp".to_string(), to: "proj/package.json".to_string() }
    );
    assert_eq!(c.step(CommitEvent::Succeeded), CommitAction::Finish { result: Ok(()), discard: vec![] });
    assert_eq!(c.phase, CommitPhase::Done);
}

#[test]
fn failed_lock_rename_leaves_manifest_untouched() {
    let (mut c, _) = start(CommitOutcome::non_empty("{}", "lock"));
    c.step(CommitEvent::Succeeded);
    c.step(CommitEvent::Succeeded);
    c.step(CommitEvent::Succeeded);
    match c.step(CommitEvent::Failed("denied".to_string())) {
        CommitAction::Finish { result: Err(f), discard } => {
            assert_eq!(f.message, "Failed to rename temporary lock file to 'proj/deno.lock': denied");
            assert_eq!(f.path, Some("proj/deno.lock".to_string()));
            assert_eq!(discard, vec!["proj/.package.json.tmp".to_string(), "proj/.deno.lock.tmp".to_string()]);
        }
        other => panic!("unexpected {:?}", other),
    }
}

#[test]
fn empty_commit_deletes_lock_then_manifest() {
    let (mut c, _) = start(CommitOutcome::empty());
    assert_eq!(c.step(CommitEvent::Succeeded), CommitAction::RemoveFile("proj/deno.lock".to_string()));
    assert_eq!(c.step(CommitEvent::Succeeded), CommitAction::RemoveFile("proj/package.json".to_string()));
    assert_eq!(c.step(CommitEvent::Succeeded), CommitAction::Finish { result: Ok(()), discard: vec![] });
}

#[test]
fn commit_to_missing_root_fails_first() {
    let files = StagedFiles { package_json: "{}".to_string(), deno_lock: None };
    let (mut c, first) = commit_staged("nowhere", Some(&files), "nowhere/a", "nowhere/b");
    assert_eq!(first, CommitAction::CheckRoot("nowhere".to_string()));
    match c.step(CommitEvent::Failed("not a directory".to_string())) {
        CommitAction::Finish { result: Err(f), discard } => {
            assert_eq!(f.message, "Project root directory not found: nowhere");
            assert!(discard.is_empty());
        }
        other => panic!("unexpected {:?}", other),
    }
}

#[test]
fn non_empty_commit_without_lock_content_is_refused() {
    let files = StagedFiles { package_json: "{}".to_string(), deno_lock: None };
    let (mut c, _) = commit_staged("proj", Some(&files), "proj/a", "proj/b");
    match c.step(CommitEvent::Succeeded) {
        CommitAction::Finish { result: Err(f), .. } => {
            assert_eq!(f.message, "Missing deno.lock content for non-empty dependency commit");
            assert_eq!(f.path, Some("proj/deno.lock".to_string()));
        }
        other => panic!("unexpected {:?}", other),
    }
}
