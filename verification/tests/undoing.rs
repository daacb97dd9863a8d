use gluttony::undoing::{undo_step, UndoAction, UndoEvent, UndoNotice, UndoState};

fn run(events: &[UndoEvent]) -> Vec<UndoAction> {
    let mut state = UndoState::Idle;
    let mut all = Vec::new();
    for e in events {
        let (next, actions) = undo_step(state, *e);
        state = next;
        all.extend(actions);
    }
    all
}

#[test]
fn no_sessions_means_nothing_to_pick() {
    assert_eq!(
        run(&[UndoEvent::Loaded { sessions: 0 }, UndoEvent::Picked(0)]),
        vec![UndoAction::Tell(UndoNotice::NoSessions)]
    );
}

#[test]
fn cancelling_restores_nothing() {
    assert_eq!(
        run(&[UndoEvent::Loaded { sessions: 3 }, UndoEvent::Cancelled, UndoEvent::Picked(1)]),
        vec![UndoAction::AskPick, UndoAction::Tell(UndoNotice::Cancelled)]
    );
}

#[test]
fn a_pick_restores_that_session_only() {
    assert_eq!(
        run(&[UndoEvent::Loaded { sessions: 3 }, UndoEvent::Picked(2), UndoEvent::Picked(0)]),
        vec![UndoAction::AskPick, UndoAction::Restore(2)]
    );
}
