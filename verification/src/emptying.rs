//! Emptying the trash, as a machine that the program drives: once the trash
//! is read and its expired sessions purged, it decides what to show, what to
//! ask, and whether everything is deleted.

use vstd::prelude::*;

verus! {

/// Where the emptying stands.
#[derive(Debug, Clone, Copy, PartialEq, Eq, Structural)]
pub enum EmptyState {
    /// Nothing has happened yet.
    Idle,
    /// Waiting for the answer to question 1 or question 2.
    Confirming(u8),
    /// The emptying is over.
    Done,
}

/// What the program reports back.
#[derive(Debug, Clone, Copy, PartialEq, Eq, Structural)]
pub enum EmptyEvent {
    /// The trash was read and its expired sessions purged: what is left.
    Loaded { sessions: usize, entries: u64, bytes: u64 },
    /// The user answered the last question: yes or no.
    Answered(bool),
}

/// A short notice to the user.
#[derive(Debug, Clone, Copy, PartialEq, Eq, Structural)]
pub enum EmptyNotice {
    AlreadyEmpty,
    Aborted,
}

/// Something the program is to do, in order; a question comes last.
#[derive(Debug, Clone, Copy, PartialEq, Eq, Structural)]
pub enum EmptyAction {
    /// Tell the user something.
    Tell(EmptyNotice),
    /// Show what the trash holds.
    ShowSummary { sessions: usize, entries: u64, bytes: u64 },
    /// Warn that what is emptied cannot be recovered.
    Warn,
    /// Ask question 1 or question 2.
    AskConfirm(u8),
    /// Delete every session of the trash and forget them all.
    DeleteAll,
}

/// One step of the emptying: an empty trash ends with "Trash is already
/// empty."; otherwise the summary and the warning are shown and question 1
/// asked; a "no" ends with "Aborted.", a first "yes" asks question 2, and
/// the second "yes" deletes everything.
pub open spec fn empty_step_spec(s: EmptyState, e: EmptyEvent) -> (EmptyState, Seq<EmptyAction>) {
    match (s, e) {
        (EmptyState::Idle, EmptyEvent::Loaded { sessions, entries, bytes }) => if sessions == 0 {
            (EmptyState::Done, seq![EmptyAction::Tell(EmptyNotice::AlreadyEmpty)])
        } else {
            (
                EmptyState::Confirming(1),
                seq![
                    EmptyAction::ShowSummary { sessions, entries, bytes },
                    EmptyAction::Warn,
                    EmptyAction::AskConfirm(1),
                ],
            )
        },
        (EmptyState::Confirming(q), EmptyEvent::Answered(yes)) => if !yes {
            (EmptyState::Done, seq![EmptyAction::Tell(EmptyNotice::Aborted)])
        } else if q == 1 {
            (EmptyState::Confirming(2), seq![EmptyAction::AskConfirm(2)])
        } else {
            (EmptyState::Done, seq![EmptyAction::DeleteAll])
        },
        _ => (EmptyState::Done, seq![]),
    }
}

/// Takes one step of the emptying: from where it stands and what the
/// program reports, the new standing and what the program is to do.
pub fn empty_trash_step(state: EmptyState, event: EmptyEvent) -> (r: (EmptyState, Vec<EmptyAction>))
    ensures
        (r.0, r.1@) == empty_step_spec(state, event),
{
    match (state, event) {
        (EmptyState::Idle, EmptyEvent::Loaded { sessions, entries, bytes }) => {
            if sessions == 0 {
                let acts = vec![EmptyAction::Tell(EmptyNotice::AlreadyEmpty)];
                assert(acts@ =~= seq![EmptyAction::Tell(EmptyNotice::AlreadyEmpty)]);
                (EmptyState::Done, acts)
            } else {
                let acts = vec![
                    EmptyAction::ShowSummary { sessions, entries, bytes },
                    EmptyAction::Warn,
                    EmptyAction::AskConfirm(1),
                ];
                assert(acts@ =~= seq![
                    EmptyAction::ShowSummary { sessions, entries, bytes },
                    EmptyAction::Warn,
                    EmptyAction::AskConfirm(1),
                ]);
                (EmptyState::Confirming(1), acts)
            }
        },
        (EmptyState::Confirming(q), EmptyEvent::Answered(yes)) => {
            if !yes {
                let acts = vec![EmptyAction::Tell(EmptyNotice::Aborted)];
                assert(acts@ =~= seq![EmptyAction::Tell(EmptyNotice::Aborted)]);
                (EmptyState::Done, acts)
            } else if q == 1 {
                let acts = vec![EmptyAction::AskConfirm(2)];
                assert(acts@ =~= seq![EmptyAction::AskConfirm(2)]);
                (EmptyState::Confirming(2), acts)
            } else {
                let acts = vec![EmptyAction::DeleteAll];
                assert(acts@ =~= seq![EmptyAction::DeleteAll]);
                (EmptyState::Done, acts)
            }
        },
        _ => {
            let acts: Vec<EmptyAction> = Vec::new();
            assert(acts@ =~= Seq::<EmptyAction>::empty());
            (EmptyState::Done, acts)
        },
    }
}

/// The actions of a whole emptying: the steps taken from `s` on the events
/// in order.
pub open spec fn run(s: EmptyState, events: Seq<EmptyEvent>) -> Seq<EmptyAction>
    decreases events.len(),
{
    if events.len() == 0 {
        Seq::empty()
    } else {
        let next = empty_step_spec(s, events[0]);
        next.1 + run(next.0, events.drop_first())
    }
}

/// Some action deletes everything.
pub open spec fn deletes_all(acts: Seq<EmptyAction>) -> bool {
    exists|i: int| 0 <= i < acts.len() && acts[i] == EmptyAction::DeleteAll
}

/// How many times the user answered yes.
pub open spec fn yes_count(events: Seq<EmptyEvent>) -> nat
    decreases events.len(),
{
    if events.len() == 0 {
        0
    } else {
        (if events[0] == EmptyEvent::Answered(true) {
            1nat
        } else {
            0nat
        }) + yes_count(events.drop_first())
    }
}

/// The answers still owed before everything is deleted.
pub open spec fn owed(s: EmptyState) -> nat {
    if s == EmptyState::Confirming(2) {
        1
    } else {
        2
    }
}

/// The states that an emptying started from `Idle` can be in.
pub open spec fn reachable(s: EmptyState) -> bool {
    s == EmptyState::Idle || s == EmptyState::Done || s == EmptyState::Confirming(1) || s
        == EmptyState::Confirming(2)
}

proof fn lemma_deletes_concat(a: Seq<EmptyAction>, b: Seq<EmptyAction>)
    ensures
        deletes_all(a + b) ==> deletes_all(a) || deletes_all(b),
{
    if deletes_all(a + b) {
        let i = choose|i: int| 0 <= i < (a + b).len() && (a + b)[i] == EmptyAction::DeleteAll;
        if i < a.len() {
            assert(a[i] == (a + b)[i]);
        } else {
            assert(b[i - a.len()] == (a + b)[i]);
        }
    }
}

proof fn lemma_owes(s: EmptyState, events: Seq<EmptyEvent>)
    requires
        reachable(s),
    ensures
        deletes_all(run(s, events)) ==> yes_count(events) >= owed(s),
    decreases events.len(),
{
    if events.len() > 0 {
        let next = empty_step_spec(s, events[0]);
        let rest = run(next.0, events.drop_first());
        lemma_deletes_concat(next.1, rest);
        lemma_owes(next.0, events.drop_first());
        if deletes_all(next.1) {
            let i = choose|i: int| 0 <= i < next.1.len() && next.1[i] == EmptyAction::DeleteAll;
            assert(events[0] == EmptyEvent::Answered(true));
        }
    }
}

/// The trash is emptied only after the user answered yes twice.
pub proof fn law_empty_asks_twice(events: Seq<EmptyEvent>)
    ensures
        deletes_all(run(EmptyState::Idle, events)) ==> yes_count(events) >= 2,
{
    lemma_owes(EmptyState::Idle, events);
}

/// A trash that holds sessions is emptied when the user answers yes to
/// both questions, after the summary and the warning.
pub proof fn law_two_yeses_empty(sessions: usize, entries: u64, bytes: u64)
    requires
        sessions > 0,
    ensures
        run(
            EmptyState::Idle,
            seq![
                EmptyEvent::Loaded { sessions, entries, bytes },
                EmptyEvent::Answered(true),
                EmptyEvent::Answered(true),
            ],
        ) == seq![
            EmptyAction::ShowSummary { sessions, entries, bytes },
            EmptyAction::Warn,
            EmptyAction::AskConfirm(1),
            EmptyAction::AskConfirm(2),
            EmptyAction::DeleteAll,
        ],
{
    let events = seq![
        EmptyEvent::Loaded { sessions, entries, bytes },
        EmptyEvent::Answered(true),
        EmptyEvent::Answered(true),
    ];
    let e1 = events.drop_first();
    let e2 = e1.drop_first();
    assert(e2.drop_first() =~= Seq::<EmptyEvent>::empty());
    assert(run(EmptyState::Done, e2.drop_first()) == Seq::<EmptyAction>::empty());
    assert(run(EmptyState::Confirming(2), e2) =~= seq![EmptyAction::DeleteAll]);
    assert(run(EmptyState::Confirming(1), e1) =~= seq![EmptyAction::AskConfirm(2), EmptyAction::DeleteAll]);
}

/// An empty trash is never deleted from: the user is told so and nothing
/// else happens, whatever follows.
pub proof fn law_empty_trash_untouched(entries: u64, bytes: u64, later: Seq<EmptyEvent>)
    ensures
        run(EmptyState::Idle, seq![EmptyEvent::Loaded { sessions: 0, entries, bytes }] + later)
            == seq![EmptyAction::Tell(EmptyNotice::AlreadyEmpty)],
{
    let events = seq![EmptyEvent::Loaded { sessions: 0, entries, bytes }] + later;
    assert(events.drop_first() =~= later);
    lemma_done_is_silent(later);
    assert(seq![EmptyAction::Tell(EmptyNotice::AlreadyEmpty)] + Seq::<EmptyAction>::empty() =~= seq![
        EmptyAction::Tell(EmptyNotice::AlreadyEmpty),
    ]);
}

proof fn lemma_done_is_silent(events: Seq<EmptyEvent>)
    ensures
        run(EmptyState::Done, events) == Seq::<EmptyAction>::empty(),
    decreases events.len(),
{
    if events.len() > 0 {
        lemma_done_is_silent(events.drop_first());
    }
}

} // verus!
