use gluttony::emptying::{empty_trash_step, EmptyAction, EmptyEvent, EmptyNotice, EmptyState};

fn run(events: &[EmptyEvent]) -> Vec<EmptyAction> {
    let mut state = EmptyState::Idle;
    let mut all = Vec::new();
    for e in events {
        let (next, actions) = empty_trash_step(state, *e);
        state = next;
        all.extend(actions);
    }
    all
}

fn loaded(sessions: usize) -> EmptyEvent {
    EmptyEvent::Loaded { sessions, entries: 4, bytes: 1_500 }
}

#[test]
fn empty_trash_is_left_alone() {
    assert_eq!(
        run(&[loaded(0), EmptyEvent::Answered(true), EmptyEvent::Answered(true)]),
        vec![EmptyAction::Tell(EmptyNotice::AlreadyEmpty)]
    );
}

#[test]
fn two_yeses_empty_the_trash() {
    assert_eq!(
        run(&[loaded(2), EmptyEvent::Answered(true), EmptyEvent::Answered(true)]),
        vec![
            EmptyAction::ShowSummary { sessions: 2, entries: 4, bytes: 1_500 },
            EmptyAction::Warn,
            EmptyAction::AskConfirm(1),
            EmptyAction::AskConfirm(2),
            EmptyAction::DeleteAll,
        ]
    );
}

#[test]
fn one_yes_is_not_enough() {
    let first_no = run(&[loaded(1), EmptyEvent::Answered(false), EmptyEvent::Answered(true)]);
    assert!(!first_no.contains(&EmptyAction::DeleteAll));
    assert_eq!(first_no.last(), Some(&EmptyAction::Tell(EmptyNotice::Aborted)));
    let second_no = run(&[loaded(1), EmptyEvent::Answered(true), EmptyEvent::Answered(false)]);
    assert!(!second_no.contains(&EmptyAction::DeleteAll));
    assert_eq!(second_no.last(), Some(&EmptyAction::Tell(EmptyNotice::Aborted)));
    let unanswered = run(&[loaded(1), EmptyEvent::Answered(true)]);
    assert!(!unanswered.contains(&EmptyAction::DeleteAll));
}

#[test]
fn events_out_of_turn_end_the_dialogue() {
    let (state, actions) = empty_trash_step(EmptyState::Idle, EmptyEvent::Answered(true));
    assert_eq!(state, EmptyState::Done);
    assert!(actions.is_empty());
    let (state, actions) = empty_trash_step(EmptyState::Done, loaded(3));
    assert_eq!(state, EmptyState::Done);
    assert!(actions.is_empty());
}
