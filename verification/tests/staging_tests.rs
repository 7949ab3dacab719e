use wda_core::codes;
use wda_core::deps::StagedFiles;
use wda_core::staging::{DenoOutput, StagedAction, StagedEvent, StagedPhase, StagedRun};

fn args() -> Vec<String> {
    vec!["add".to_string(), "--package-json".to_string(), "is-number@7".to_string()]
}

#[test]
fn staged_run_copies_state_runs_deno_and_reads_back() {
    let (mut run, first) = StagedRun::new("proj", "/tmp/stage", args());
    assert!(matches!(first, StagedAction::ResolveDeno));
    match run.step(StagedEvent::Tool(Ok("/usr/bin/deno".to_string()))) {
        StagedAction::CreateDir(p) => assert_eq!(p, "/tmp/stage"),
        other => panic!("unexpected {:?}", other),
    }
    match run.step(StagedEvent::Succeeded) {
        StagedAction::IsFile(p) => assert_eq!(p, "proj/package.json"),
        other => panic!("unexpected {:?}", other),
    }
    match run.step(StagedEvent::Exists(false)) {
        StagedAction::WriteFile { path, content } => {
            assert_eq!(path, "/tmp/stage/package.json");
            assert_eq!(content, "{\"dependencies\":{}}\n");
        }
        other => panic!("unexpected {:?}", other),
    }
    match run.step(StagedEvent::Succeeded) {
        StagedAction::IsFile(p) => assert_eq!(p, "proj/deno.lock"),
        other => panic!("unexpected {:?}", other),
    }
    match run.step(StagedEvent::Exists(true)) {
        StagedAction::CopyFile { from, to } => {
            assert_eq!(from, "proj/deno.lock");
            assert_eq!(to, "/tmp/stage/deno.lock");
        }
        other => panic!("unexpected {:?}", other),
    }
    match run.step(StagedEvent::Succeeded) {
        StagedAction::RunDeno { program, dir, args: a } => {
            assert_eq!(program, "/usr/bin/deno");
            assert_eq!(dir, "/tmp/stage");
            assert_eq!(a, args());
        }
        other => panic!("unexpected {:?}", other),
    }
    let ok = DenoOutput { success: true, status: "exit status: 0".to_string(), stderr: String::new() };
    match run.step(StagedEvent::Ran(Ok(ok))) {
        StagedAction::ReadText(p) => assert_eq!(p, "/tmp/stage/package.json"),
        other => panic!("unexpected {:?}", other),
    }
    match run.step(StagedEvent::Text(Ok("{\"dependencies\":{\"is-number\":\"^7.0.0\"}}".to_string()))) {
        StagedAction::IsFile(p) => assert_eq!(p, "/tmp/stage/deno.lock"),
        other => panic!("unexpected {:?}", other),
    }
    match run.step(StagedEvent::Exists(true)) {
        StagedAction::ReadText(p) => assert_eq!(p, "/tmp/stage/deno.lock"),
        other => panic!("unexpected {:?}", other),
    }
    match run.step(StagedEvent::Text(Ok("lock".to_string()))) {
        StagedAction::Finish { result, remove_stage } => {
            assert!(remove_stage);
            assert_eq!(
                result.unwrap(),
                StagedFiles {
                    package_json: "{\"dependencies\":{\"is-number\":\"^7.0.0\"}}".to_string(),
                    deno_lock: Some("lock".to_string())
                }
            );
        }
        other => panic!("unexpected {:?}", other),
    }
    assert_eq!(run.phase, StagedPhase::Done);
}

#[test]
fn failed_deno_run_reports_stderr_and_removes_stage() {
    let (mut run, _) = StagedRun::new("proj", "/tmp/stage", args());
    run.step(StagedEvent::Tool(Ok("deno".to_string())));
    run.step(StagedEvent::Succeeded);
    run.step(StagedEvent::Exists(true));
    run.step(StagedEvent::Succeeded);
    run.step(StagedEvent::Exists(false));
    let failed = DenoOutput { success: false, status: "exit status: 1".to_string(), stderr: "  not found \n".to_string() };
    match run.step(StagedEvent::Ran(Ok(failed))) {
        StagedAction::Finish { result: Err(d), remove_stage } => {
            assert!(remove_stage);
            assert_eq!(d.code, codes::TOOL_FAULT);
            assert_eq!(d.message, "Deno command failed: not found");
        }
        other => panic!("unexpected {:?}", other),
    }
}

#[test]
fn unresolved_deno_stops_before_any_stage_exists() {
    let (mut run, _) = StagedRun::new("proj", "/tmp/stage", args());
    let d = wda_core::resolve::resolve_deno(&vec![], &vec![], None).unwrap_err();
    match run.step(StagedEvent::Tool(Err(d))) {
        StagedAction::Finish { result: Err(e), remove_stage } => {
            assert!(!remove_stage);
            assert_eq!(e.code, codes::TOOL_FAULT);
        }
        other => panic!("unexpected {:?}", other),
    }
}
