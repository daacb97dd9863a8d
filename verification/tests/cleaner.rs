use gluttony::cleaner::{
    clean_step, deletion_message, dry_run_freed, group_by_kind, more_paths, notice, pick_label,
    question, removal_columns, removal_header, selection_total, tally, CleanAction, CleanEvent,
    CleanState, Notice,
};
use gluttony::scanner::{Artifact, ArtifactKind};

fn art(path: &str, kind: ArtifactKind, size: u64) -> Artifact {
    Artifact { path: path.to_string(), kind, size }
}

fn sample() -> Vec<Artifact> {
    vec![
        art("/p/node_modules", ArtifactKind::NodeModules, 5),
        art("/var/lib/docker", ArtifactKind::DockerData, 100),
        art("/q/node_modules", ArtifactKind::NodeModules, 7),
    ]
}

fn deletes(actions: &[CleanAction]) -> Option<Vec<usize>> {
    actions.iter().find_map(|a| match a {
        CleanAction::Delete(sel) => Some(sel.clone()),
        _ => None,
    })
}

#[test]
fn dry_run_does_not_delete() {
    let arts = vec![art("/tmp/x/node_modules", ArtifactKind::NodeModules, 5)];
    let (state, actions) = clean_step(CleanState::Idle, CleanEvent::Start, &arts, true, false);
    assert!(matches!(state, CleanState::Done));
    assert!(matches!(actions.as_slice(), [CleanAction::ShowDryRun]));
    let (_, later) = clean_step(state, CleanEvent::Answered(true), &arts, true, false);
    assert!(deletes(&later).is_none());
}

#[test]
fn nothing_found_ends_at_once() {
    let (state, actions) = clean_step(CleanState::Idle, CleanEvent::Start, &[], false, true);
    assert!(matches!(state, CleanState::Done));
    assert!(actions.is_empty());
}

#[test]
fn removing_everything_asks_twice() {
    let arts = vec![art("/a", ArtifactKind::NodeModules, 1), art("/b", ArtifactKind::Pycache, 2)];
    let (s1, a1) = clean_step(CleanState::Idle, CleanEvent::Start, &arts, false, true);
    assert!(matches!(a1.as_slice(), [CleanAction::ShowSummary(sel), CleanAction::AskConfirm(1)] if sel == &vec![0, 1]));
    let (s2, a2) = clean_step(s1, CleanEvent::Answered(true), &arts, false, true);
    assert!(matches!(a2.as_slice(), [CleanAction::AskConfirm(2)]));
    let (s3, a3) = clean_step(s2, CleanEvent::Answered(true), &arts, false, true);
    assert!(matches!(s3, CleanState::Done));
    assert_eq!(deletes(&a3), Some(vec![0, 1]));
}

#[test]
fn second_no_aborts() {
    let arts = vec![art("/a", ArtifactKind::NodeModules, 1)];
    let (s1, _) = clean_step(CleanState::Idle, CleanEvent::Start, &arts, false, true);
    let (s2, _) = clean_step(s1, CleanEvent::Answered(true), &arts, false, true);
    let (s3, a3) = clean_step(s2, CleanEvent::Answered(false), &arts, false, true);
    assert!(matches!(s3, CleanState::Done));
    assert!(matches!(a3.as_slice(), [CleanAction::Tell(Notice::Aborted)]));
}

#[test]
fn picking_then_proceeding() {
    let arts = sample();
    let (s1, a1) = clean_step(CleanState::Idle, CleanEvent::Start, &arts, false, false);
    assert!(matches!(a1.as_slice(), [CleanAction::AskPick]));
    let (s2, a2) = clean_step(s1, CleanEvent::Picked(vec![2, 0]), &arts, false, false);
    assert!(matches!(a2.as_slice(), [CleanAction::ShowSummary(_), CleanAction::AskConfirm(0)]));
    let (_, a3) = clean_step(s2, CleanEvent::Answered(true), &arts, false, false);
    assert_eq!(deletes(&a3), Some(vec![2, 0]));
}

#[test]
fn empty_pick_selects_nothing() {
    let arts = sample();
    let (s1, _) = clean_step(CleanState::Idle, CleanEvent::Start, &arts, false, false);
    let (s2, a2) = clean_step(s1, CleanEvent::Picked(vec![]), &arts, false, false);
    assert!(matches!(s2, CleanState::Done));
    assert!(matches!(a2.as_slice(), [CleanAction::Tell(Notice::NothingSelected)]));
}

#[test]
fn running_docker_stops_cleaning() {
    let arts = sample();
    let (s1, _) = clean_step(CleanState::Idle, CleanEvent::Start, &arts, false, false);
    let (s2, a2) = clean_step(s1, CleanEvent::Picked(vec![1]), &arts, false, false);
    assert!(matches!(a2.as_slice(), [CleanAction::AskDocker]));
    let (s3, a3) = clean_step(s2, CleanEvent::DockerRunning(true), &arts, false, false);
    assert!(matches!(s3, CleanState::Done));
    assert!(matches!(a3.as_slice(), [CleanAction::Tell(Notice::DockerIsRunning)]));
}

#[test]
fn stopped_docker_lets_cleaning_go_on() {
    let arts = sample();
    let (s1, a1) = clean_step(CleanState::Idle, CleanEvent::Start, &arts, false, true);
    assert!(matches!(a1.as_slice(), [CleanAction::ShowSummary(_), CleanAction::AskDocker]));
    let (s2, a2) = clean_step(s1, CleanEvent::DockerRunning(false), &arts, false, true);
    assert!(matches!(a2.as_slice(), [CleanAction::AskConfirm(1)]));
    let (s3, _) = clean_step(s2, CleanEvent::Answered(true), &arts, false, true);
    let (_, a4) = clean_step(s3, CleanEvent::Answered(true), &arts, false, true);
    assert_eq!(deletes(&a4), Some(vec![0, 1, 2]));
}

#[test]
fn unexpected_event_ends_dialogue() {
    let arts = sample();
    let (s, a) = clean_step(CleanState::Picking, CleanEvent::Answered(true), &arts, false, false);
    assert!(matches!(s, CleanState::Done));
    assert!(a.is_empty());
}

#[test]
fn texts_of_dialogue() {
    assert_eq!(question(1), "Remove all artefacts? (1/2)");
    assert_eq!(question(2), "Are you absolutely sure? (2/2)");
    assert_eq!(question(0), "Proceed?");
    assert_eq!(notice(Notice::Aborted), "Aborted.");
    assert_eq!(notice(Notice::NothingSelected), "Nothing selected.");
    assert_eq!(removal_header(1, 5), "About to remove 1 artefact (5 B total):");
    assert_eq!(removal_header(3, 2_500), "About to remove 3 artefacts (2.50 KB total):");
    assert_eq!(dry_run_freed(1_000_000), "1.00 MB would be freed.");
    assert_eq!(more_paths(3), None);
    assert_eq!(more_paths(5), Some("… and 2 more".to_string()));
}

#[test]
fn removal_summary_columns() {
    let (label, count, noun, size) = removal_columns(ArtifactKind::Pycache, 1, 10);
    assert_eq!(label, "__pycache__       ");
    assert_eq!(count, "   1");
    assert_eq!(noun, "path ");
    assert_eq!(size, "10 B");
    let (_, count2, noun2, _) = removal_columns(ArtifactKind::Pycache, 12345, 10);
    assert_eq!(count2, "12345");
    assert_eq!(noun2, "paths");
}

#[test]
fn grouping_selection_by_kind() {
    let arts = sample();
    let groups = group_by_kind(&arts, &vec![2, 1, 0]);
    assert_eq!(groups.len(), 2);
    assert_eq!(groups[0], (ArtifactKind::NodeModules, vec![2, 0]));
    assert_eq!(groups[1], (ArtifactKind::DockerData, vec![1]));
    assert_eq!(selection_total(&arts, &vec![0, 2]), 12);
}

#[test]
fn counting_deletions() {
    let results = vec![(true, 10), (false, 99), (true, 5), (false, 1)];
    assert_eq!(tally(&results), (15, 2));
    assert_eq!(tally(&vec![]), (0, 0));
    assert_eq!(deletion_message(15, 0), "Done. Freed 15 B.");
    assert_eq!(
        deletion_message(2_000, 1),
        "Done. Freed 2.00 KB. 1 item could not be removed (permission denied?)."
    );
    assert_eq!(
        deletion_message(0, 2),
        "Done. Freed 0 B. 2 items could not be removed (permission denied?)."
    );
}

#[test]
fn pick_line() {
    let a = art("/home/ann/p/target", ArtifactKind::BuildTarget, 1_500_000);
    assert_eq!(
        pick_label(&a, Some("/home/ann")),
        "target (build)         1.50 MB  ~/p/target"
    );
}

#[test]
fn two_yeses_remove_everything() {
    let arts = vec![
        art("/p/node_modules", ArtifactKind::NodeModules, 5),
        art("/q/target", ArtifactKind::BuildTarget, 7),
    ];
    let (s, _) = clean_step(CleanState::Idle, CleanEvent::Start, &arts, false, true);
    let (s, a1) = clean_step(s, CleanEvent::Answered(true), &arts, false, true);
    assert_eq!(deletes(&a1), None);
    let (_, a2) = clean_step(s, CleanEvent::Answered(true), &arts, false, true);
    assert_eq!(deletes(&a2), Some(vec![0, 1]));
}

#[test]
fn yes_with_docker_stopped_removes_exactly_the_pick() {
    let arts = sample();
    let (s, _) = clean_step(CleanState::Idle, CleanEvent::Start, &arts, false, false);
    let (s, a) = clean_step(s, CleanEvent::Picked(vec![1, 2]), &arts, false, false);
    assert!(matches!(a.last(), Some(CleanAction::AskDocker)));
    let (s, _) = clean_step(s, CleanEvent::DockerRunning(false), &arts, false, false);
    let (_, a) = clean_step(s, CleanEvent::Answered(true), &arts, false, false);
    assert_eq!(deletes(&a), Some(vec![1, 2]));
}
