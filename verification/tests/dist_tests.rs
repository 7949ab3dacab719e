use wda_core::diagnostics::ToolFault;
use wda_core::dist::{
    project_relative_path, removal_order, remove_tree, DistAction, DistEvent, DistPhase, DistReplace, DIST_HELD_HINT,
};

fn start() -> (DistReplace, DistAction) {
    DistReplace::new("/w/site", "/w", "site", "a1", "b2")
}

#[test]
fn replacement_with_previous_dist_moves_it_aside_then_removes_backup() {
    let (mut m, first) = start();
    match first {
        DistAction::CreateDir(p) => assert_eq!(p, "/w/.site.wda-stage-a1-0"),
        other => panic!("unexpected {:?}", other),
    }
    match m.step(DistEvent::Succeeded) {
        DistAction::RunWriter(p) => assert_eq!(p, "/w/.site.wda-stage-a1-0"),
        other => panic!("unexpected {:?}", other),
    }
    match m.step(DistEvent::Written(Ok(()))) {
        DistAction::CheckExists(p) => assert_eq!(p, "/w/site/dist"),
        other => panic!("unexpected {:?}", other),
    }
    match m.step(DistEvent::Exists(true)) {
        DistAction::MoveAside { from, to } => {
            assert_eq!(from, "/w/site/dist");
            assert_eq!(to, "/w/site/.site.wda-old-b2");
        }
        other => panic!("unexpected {:?}", other),
    }
    match m.step(DistEvent::Succeeded) {
        DistAction::Install { from, to } => {
            assert_eq!(from, "/w/.site.wda-stage-a1-0");
            assert_eq!(to, "/w/site/dist");
        }
        other => panic!("unexpected {:?}", other),
    }
    match m.step(DistEvent::Succeeded) {
        DistAction::RemoveBackup(p) => assert_eq!(p, "/w/site/.site.wda-old-b2"),
        other => panic!("unexpected {:?}", other),
    }
    match m.step(DistEvent::Removed(vec![])) {
        DistAction::Finish(r) => assert!(r.is_ok()),
        other => panic!("unexpected {:?}", other),
    }
    assert_eq!(m.phase, DistPhase::Done);
}

#[test]
fn taken_stage_name_is_retried_with_a_fresh_suffix() {
    let (mut m, _) = start();
    match m.step(DistEvent::AlreadyExists("c3".to_string())) {
        DistAction::CreateDir(p) => assert_eq!(p, "/w/.site.wda-stage-c3-1"),
        other => panic!("unexpected {:?}", other),
    }
    assert_eq!(m.attempt, 1);
}

#[test]
fn failed_writer_cleans_the_stage_and_reports_its_fault() {
    let (mut m, _) = start();
    m.step(DistEvent::Succeeded);
    let fault = ToolFault { message: "write failed".to_string(), path: Some("x".to_string()) };
    match m.step(DistEvent::Written(Err(fault.clone()))) {
        DistAction::RemoveStage(p) => assert_eq!(p, "/w/.site.wda-stage-a1-0"),
        other => panic!("unexpected {:?}", other),
    }
    match m.step(DistEvent::Removed(vec![])) {
        DistAction::Finish(Err(f)) => assert_eq!(f, fault),
        other => panic!("unexpected {:?}", other),
    }
}

#[test]
fn failed_install_restores_the_previous_dist() {
    let (mut m, _) = start();
    m.step(DistEvent::Succeeded);
    m.step(DistEvent::Written(Ok(())));
    m.step(DistEvent::Exists(true));
    m.step(DistEvent::Succeeded);
    match m.step(DistEvent::Failed("busy".to_string())) {
        DistAction::Restore { from, to } => {
            assert_eq!(from, "/w/site/.site.wda-old-b2");
            assert_eq!(to, "/w/site/dist");
        }
        other => panic!("unexpected {:?}", other),
    }
    match m.step(DistEvent::Succeeded) {
        DistAction::RemoveStage(_) => {}
        other => panic!("unexpected {:?}", other),
    }
    match m.step(DistEvent::Removed(vec![])) {
        DistAction::Finish(Err(f)) => {
            assert_eq!(f.message, format!("Failed to install staged dist/: {}: busy", DIST_HELD_HINT));
            assert_eq!(f.path, Some("/w/site/dist".to_string()));
        }
        other => panic!("unexpected {:?}", other),
    }
}

#[test]
fn removal_order_reverses_entries_and_ends_with_the_directory() {
    let entries = vec!["a".to_string(), "a/b.txt".to_string(), "c.txt".to_string()];
    assert_eq!(
        removal_order(&entries),
        vec!["c.txt".to_string(), "a/b.txt".to_string(), "a".to_string(), String::new()]
    );
}

#[test]
fn residual_entries_are_listed_project_relative() {
    assert!(remove_tree("/w/site", "/w/site/.old", "Failed to remove old deployment backup", &vec![]).is_ok());
    let f = remove_tree(
        "/w/site",
        "/w/site/.old",
        "Failed to remove old deployment backup",
        &vec!["x/y.txt".to_string(), String::new()],
    )
    .unwrap_err();
    assert_eq!(f.message, "Failed to remove old deployment backup; residual paths remain: .old/x/y.txt, .old");
    assert_eq!(f.path, Some("/w/site".to_string()));
}

#[test]
fn project_relative_paths() {
    assert_eq!(project_relative_path("/w/site", "/w/site/dist/index.html"), "dist/index.html");
    assert_eq!(project_relative_path("/w/site", "/w/.stage"), "../.stage");
    assert_eq!(project_relative_path("/w/site", "/elsewhere/x"), "/elsewhere/x");
}
