//! Undoing a cleaning session, as a machine that the program drives: once
//! the recorded sessions are read and listed newest first, it decides
//! whether there is anything to pick, and what a pick or its cancelling
//! leads to.

use vstd::prelude::*;

verus! {

/// Where the undoing stands.
#[derive(Debug, Clone, Copy, PartialEq, Eq, Structural)]
pub enum UndoState {
    /// Nothing has happened yet.
    Idle,
    /// The user is picking one of `count` sessions.
    Picking { count: usize },
    /// The undoing is over.
    Done,
}

/// What the program reports back.
#[derive(Debug, Clone, Copy, PartialEq, Eq, Structural)]
pub enum UndoEvent {
    /// The recorded sessions were read: this many.
    Loaded { sessions: usize },
    /// The user picked the session at this position of the list.
    Picked(usize),
    /// The user cancelled the picker.
    Cancelled,
}

/// A short notice to the user.
#[derive(Debug, Clone, Copy, PartialEq, Eq, Structural)]
pub enum UndoNotice {
    NoSessions,
    Cancelled,
}

/// Something the program is to do, in order; a question comes last.
#[derive(Debug, Clone, Copy, PartialEq, Eq, Structural)]
pub enum UndoAction {
    /// Tell the user something.
    Tell(UndoNotice),
    /// Show the sessions, newest first, and let the user pick one.
    AskPick,
    /// Move the entries of the session at this position back to where
    /// they were, and forget the session.
    Restore(usize),
}

/// One step of the undoing: with no session recorded the user is told so
/// and nothing changes; otherwise the user picks; cancelling changes
/// nothing, and a pick restores that session and that one only.
pub open spec fn undo_step_spec(s: UndoState, e: UndoEvent) -> (UndoState, Seq<UndoAction>) {
    match (s, e) {
        (UndoState::Idle, UndoEvent::Loaded { sessions }) => if sessions == 0 {
            (UndoState::Done, seq![UndoAction::Tell(UndoNotice::NoSessions)])
        } else {
            (UndoState::Picking { count: sessions }, seq![UndoAction::AskPick])
        },
        (UndoState::Picking { .. }, UndoEvent::Cancelled) => (
            UndoState::Done,
            seq![UndoAction::Tell(UndoNotice::Cancelled)],
        ),
        (UndoState::Picking { .. }, UndoEvent::Picked(i)) => (
            UndoState::Done,
            seq![UndoAction::Restore(i)],
        ),
        _ => (UndoState::Done, seq![]),
    }
}

/// Takes one step of the undoing: from where it stands and what the program
/// reports, the new standing and what the program is to do. A pick names a
/// session of the list.
pub fn undo_step(state: UndoState, event: UndoEvent) -> (r: (UndoState, Vec<UndoAction>))
    requires
        state matches UndoState::Picking { count } ==> (event matches UndoEvent::Picked(i) ==> i
            < count),
    ensures
        (r.0, r.1@) == undo_step_spec(state, event),
{
    match (state, event) {
        (UndoState::Idle, UndoEvent::Loaded { sessions }) => {
            if sessions == 0 {
                let acts = vec![UndoAction::Tell(UndoNotice::NoSessions)];
                assert(acts@ =~= seq![UndoAction::Tell(UndoNotice::NoSessions)]);
                (UndoState::Done, acts)
            } else {
                let acts = vec![UndoAction::AskPick];
                assert(acts@ =~= seq![UndoAction::AskPick]);
                (UndoState::Picking { count: sessions }, acts)
            }
        },
        (UndoState::Picking { .. }, UndoEvent::Cancelled) => {
            let acts = vec![UndoAction::Tell(UndoNotice::Cancelled)];
            assert(acts@ =~= seq![UndoAction::Tell(UndoNotice::Cancelled)]);
            (UndoState::Done, acts)
        },
        (UndoState::Picking { .. }, UndoEvent::Picked(i)) => {
            let acts = vec![UndoAction::Restore(i)];
            assert(acts@ =~= seq![UndoAction::Restore(i)]);
            (UndoState::Done, acts)
        },
        _ => {
            let acts: Vec<UndoAction> = Vec::new();
            assert(acts@ =~= Seq::<UndoAction>::empty());
            (UndoState::Done, acts)
        },
    }
}

/// The actions of a whole undoing: the steps taken from `s` on the events
/// in order.
pub open spec fn run(s: UndoState, events: Seq<UndoEvent>) -> Seq<UndoAction>
    decreases events.len(),
{
    if events.len() == 0 {
        Seq::empty()
    } else {
        let next = undo_step_spec(s, events[0]);
        next.1 + run(next.0, events.drop_first())
    }
}

proof fn lemma_done_is_silent(events: Seq<UndoEvent>)
    ensures
        run(UndoState::Done, events) == Seq::<UndoAction>::empty(),
    decreases events.len(),
{
    if events.len() > 0 {
        lemma_done_is_silent(events.drop_first());
    }
}

/// With no session recorded the user is told so and nothing is restored,
/// whatever follows.
pub proof fn law_nothing_to_undo(later: Seq<UndoEvent>)
    ensures
        run(UndoState::Idle, seq![UndoEvent::Loaded { sessions: 0 }] + later) == seq![
            UndoAction::Tell(UndoNotice::NoSessions),
        ],
{
    let events = seq![UndoEvent::Loaded { sessions: 0 }] + later;
    assert(events.drop_first() =~= later);
    lemma_done_is_silent(later);
    assert(seq![UndoAction::Tell(UndoNotice::NoSessions)] + Seq::<UndoAction>::empty() =~= seq![
        UndoAction::Tell(UndoNotice::NoSessions),
    ]);
}

/// Cancelling the picker restores nothing, whatever follows.
pub proof fn law_cancel_changes_nothing(sessions: usize, later: Seq<UndoEvent>)
    requires
        sessions > 0,
    ensures
        run(UndoState::Idle, seq![UndoEvent::Loaded { sessions }, UndoEvent::Cancelled] + later)
            == seq![UndoAction::AskPick, UndoAction::Tell(UndoNotice::Cancelled)],
{
    let events = seq![UndoEvent::Loaded { sessions }, UndoEvent::Cancelled] + later;
    assert(events.drop_first().drop_first() =~= later);
    lemma_done_is_silent(later);
    assert(run(UndoState::Picking { count: sessions }, events.drop_first()) =~= seq![
        UndoAction::Tell(UndoNotice::Cancelled),
    ]);
    assert(run(UndoState::Idle, events) =~= seq![
        UndoAction::AskPick,
        UndoAction::Tell(UndoNotice::Cancelled),
    ]);
}

/// A pick restores the picked session and no other, whatever follows.
pub proof fn law_pick_restores_it(sessions: usize, i: usize, later: Seq<UndoEvent>)
    requires
        i < sessions,
    ensures
        run(UndoState::Idle, seq![UndoEvent::Loaded { sessions }, UndoEvent::Picked(i)] + later)
            == seq![UndoAction::AskPick, UndoAction::Restore(i)],
{
    let events = seq![UndoEvent::Loaded { sessions }, UndoEvent::Picked(i)] + later;
    assert(events.drop_first().drop_first() =~= later);
    lemma_done_is_silent(later);
    assert(run(UndoState::Picking { count: sessions }, events.drop_first()) =~= seq![
        UndoAction::Restore(i),
    ]);
    assert(run(UndoState::Idle, events) =~= seq![UndoAction::AskPick, UndoAction::Restore(i)]);
}

} // verus!
