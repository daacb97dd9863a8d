//! The cleaning dialogue, as a machine that the program drives: from what
//! the user picks and answers, it decides what to show, what to ask next,
//! and what to delete. Also the texts of the dialogue.

use vstd::prelude::*;
use crate::scanner::{Artifact, ArtifactKind, total_size};
use crate::display::{human_size, human_size_text, kinds_in_order, display_path, display_path_spec};
use crate::text::{decimal, opt_view, pad_left, pad_left_spec, pad_right, pad_right_spec, push_decimal};

verus! {

broadcast use vstd::seq_lib::group_seq_properties;


/// Where the dialogue stands.
#[derive(Debug, Clone)]
pub enum CleanState {
    /// Nothing has happened yet.
    Idle,
    /// The user is picking artefacts.
    Picking,
    /// The selection holds Docker data; waiting to learn whether Docker runs.
    CheckingDocker { selection: Vec<usize>, all: bool },
    /// Waiting for the answer to a question: question 1 and 2 when removing
    /// everything, question 0 after picking.
    Confirming { selection: Vec<usize>, question: u8 },
    /// The dialogue is over.
    Done,
}

/// What the program reports back.
#[derive(Debug, Clone)]
pub enum CleanEvent {
    /// The dialogue begins.
    Start,
    /// The user picked these artefacts (by position), or none.
    Picked(Vec<usize>),
    /// Whether Docker is running.
    DockerRunning(bool),
    /// The user answered the last question: yes or no.
    Answered(bool),
}

/// A short notice to the user.
#[derive(Debug, Clone, Copy, PartialEq, Eq, Structural)]
pub enum Notice {
    NothingSelected,
    Aborted,
    DockerIsRunning,
}

/// Something the program is to do, in order; a question comes last.
#[derive(Debug, Clone)]
pub enum CleanAction {
    /// List what a dry run would remove.
    ShowDryRun,
    /// Summarise the artefacts about to be removed.
    ShowSummary(Vec<usize>),
    /// Tell the user something.
    Tell(Notice),
    /// Ask the user to pick artefacts.
    AskPick,
    /// Find out whether Docker is running.
    AskDocker,
    /// Ask a yes/no question: 1 and 2 before removing everything, 0 after
    /// picking.
    AskConfirm(u8),
    /// Delete these artefacts.
    Delete(Vec<usize>),
}

/// Some selected artefact is Docker data.
pub open spec fn has_docker(arts: Seq<Artifact>, selection: Seq<usize>) -> bool {
    exists|i: int|
        0 <= i < selection.len() && selection[i] < arts.len() && (#[trigger] arts[selection[i] as int]).kind
            == ArtifactKind::DockerData
}

/// Every position in the selection names an artefact.
pub open spec fn valid_selection(arts: Seq<Artifact>, selection: Seq<usize>) -> bool {
    forall|i: int| 0 <= i < selection.len() ==> #[trigger] selection[i] < arts.len()
}

/// The positions `0 .. n`.
pub open spec fn everything(n: nat) -> Seq<usize> {
    Seq::new(n, |i: int| i as usize)
}

/// The view of an action.
pub enum ActionView {
    ShowDryRun,
    ShowSummary(Seq<usize>),
    Tell(Notice),
    AskPick,
    AskDocker,
    AskConfirm(u8),
    Delete(Seq<usize>),
}

/// The view of a state.
pub enum StateView {
    Idle,
    Picking,
    CheckingDocker(Seq<usize>, bool),
    Confirming(Seq<usize>, u8),
    Done,
}

/// The view of an event.
pub enum EventView {
    Start,
    Picked(Seq<usize>),
    DockerRunning(bool),
    Answered(bool),
}

/// The view of an action.
pub open spec fn action_view(a: CleanAction) -> ActionView {
    match a {
        CleanAction::ShowDryRun => ActionView::ShowDryRun,
        CleanAction::ShowSummary(s) => ActionView::ShowSummary(s@),
        CleanAction::Tell(n) => ActionView::Tell(n),
        CleanAction::AskPick => ActionView::AskPick,
        CleanAction::AskDocker => ActionView::AskDocker,
        CleanAction::AskConfirm(q) => ActionView::AskConfirm(q),
        CleanAction::Delete(s) => ActionView::Delete(s@),
    }
}

/// The views of a list of actions.
pub open spec fn actions_view(v: Seq<CleanAction>) -> Seq<ActionView> {
    v.map_values(|a: CleanAction| action_view(a))
}

/// The view of a state.
pub open spec fn state_view(s: CleanState) -> StateView {
    match s {
        CleanState::Idle => StateView::Idle,
        CleanState::Picking => StateView::Picking,
        CleanState::CheckingDocker { selection, all } => StateView::CheckingDocker(selection@, all),
        CleanState::Confirming { selection, question } => StateView::Confirming(selection@, question),
        CleanState::Done => StateView::Done,
    }
}

/// The view of an event.
pub open spec fn event_view(e: CleanEvent) -> EventView {
    match e {
        CleanEvent::Start => EventView::Start,
        CleanEvent::Picked(s) => EventView::Picked(s@),
        CleanEvent::DockerRunning(b) => EventView::DockerRunning(b),
        CleanEvent::Answered(b) => EventView::Answered(b),
    }
}

/// After a selection is made: a selection holding Docker data first waits
/// to learn whether Docker runs; otherwise, when removing everything the
/// first question is asked (the summary already shown), after picking the
/// summary is shown and "Proceed?" asked.
pub open spec fn after_selection(arts: Seq<Artifact>, s: Seq<usize>, all: bool) -> (
    StateView,
    Seq<ActionView>,
) {
    if has_docker(arts, s) {
        (StateView::CheckingDocker(s, all), seq![ActionView::AskDocker])
    } else if all {
        (StateView::Confirming(s, 1), seq![ActionView::AskConfirm(1)])
    } else {
        (StateView::Confirming(s, 0), seq![ActionView::ShowSummary(s), ActionView::AskConfirm(0)])
    }
}

/// One step of the dialogue, as it runs in the tool: with nothing found it
/// ends at once; a dry run lists and ends; removing everything shows the
/// summary, checks Docker when Docker data is among it, and asks twice;
/// otherwise the user picks, an empty pick ends with "Nothing selected.",
/// Docker is checked, the summary shown and one question asked. A "no"
/// ends with "Aborted.", a running Docker ends with its notice, and the
/// last "yes" deletes the selection.
pub open spec fn step_spec(
    s: StateView,
    e: EventView,
    arts: Seq<Artifact>,
    dry_run: bool,
    all: bool,
) -> (StateView, Seq<ActionView>) {
    match (s, e) {
        (StateView::Idle, EventView::Start) => if arts.len() == 0 {
            (StateView::Done, seq![])
        } else if dry_run {
            (StateView::Done, seq![ActionView::ShowDryRun])
        } else if all {
            let everything = everything(arts.len());
            let next = after_selection(arts, everything, true);
            (next.0, seq![ActionView::ShowSummary(everything)] + next.1)
        } else {
            (StateView::Picking, seq![ActionView::AskPick])
        },
        (StateView::Picking, EventView::Picked(p)) => if p.len() == 0 {
            (StateView::Done, seq![ActionView::Tell(Notice::NothingSelected)])
        } else {
            after_selection(arts, p, false)
        },
        (StateView::CheckingDocker(sel, all_mode), EventView::DockerRunning(running)) => if running {
            (StateView::Done, seq![ActionView::Tell(Notice::DockerIsRunning)])
        } else if all_mode {
            (StateView::Confirming(sel, 1), seq![ActionView::AskConfirm(1)])
        } else {
            (StateView::Confirming(sel, 0), seq![ActionView::ShowSummary(sel), ActionView::AskConfirm(0)])
        },
        (StateView::Confirming(sel, q), EventView::Answered(yes)) => if !yes {
            (StateView::Done, seq![ActionView::Tell(Notice::Aborted)])
        } else if q == 1 {
            (StateView::Confirming(sel, 2), seq![ActionView::AskConfirm(2)])
        } else {
            (StateView::Done, seq![ActionView::Delete(sel)])
        },
        _ => (StateView::Done, seq![]),
    }
}

/// Whether some selected artefact is Docker data.
pub fn has_docker_data(arts: &[Artifact], selection: &Vec<usize>) -> (r: bool)
    requires
        valid_selection(arts@, selection@),
    ensures
        r == has_docker(arts@, selection@),
{
    let mut i: usize = 0;
    while i < selection.len()
        invariant
            i <= selection@.len(),
            valid_selection(arts@, selection@),
            forall|j: int| 0 <= j < i ==> (#[trigger] arts@[selection@[j] as int]).kind != ArtifactKind::DockerData,
        decreases selection@.len() - i,
    {
        if arts[selection[i]].kind == ArtifactKind::DockerData {
            return true;
        }
        i = i + 1;
    }
    false
}

fn after_selection_exec(arts: &[Artifact], s: Vec<usize>, all: bool) -> (r: (CleanState, Vec<CleanAction>))
    requires
        valid_selection(arts@, s@),
    ensures
        (state_view(r.0), actions_view(r.1@)) == after_selection(arts@, s@, all),
{
    let ghost sv = s@;
    if has_docker_data(arts, &s) {
        let acts = vec![CleanAction::AskDocker];
        assert(actions_view(acts@) =~= seq![ActionView::AskDocker]);
        (CleanState::CheckingDocker { selection: s, all }, acts)
    } else if all {
        let acts = vec![CleanAction::AskConfirm(1)];
        assert(actions_view(acts@) =~= seq![ActionView::AskConfirm(1)]);
        (CleanState::Confirming { selection: s, question: 1 }, acts)
    } else {
        let acts = vec![CleanAction::ShowSummary(s.clone()), CleanAction::AskConfirm(0)];
        assert(actions_view(acts@) =~= seq![
            ActionView::ShowSummary(sv),
            ActionView::AskConfirm(0),
        ]);
        (CleanState::Confirming { selection: s, question: 0 }, acts)
    }
}

/// The positions of all `n` artefacts.
fn all_positions(n: usize) -> (v: Vec<usize>)
    ensures
        v@ == everything(n as nat),
{
    let mut v: Vec<usize> = Vec::new();
    let mut i: usize = 0;
    while i < n
        invariant
            i <= n,
            v@ == everything(i as nat),
        decreases n - i,
    {
        v.push(i);
        i = i + 1;
        assert(v@ =~= everything(i as nat));
    }
    v
}

/// Takes one step of the cleaning dialogue: from where it stands and what
/// the program reports, the new standing and what the program is to do.
pub fn clean_step(
    state: CleanState,
    event: CleanEvent,
    arts: &[Artifact],
    dry_run: bool,
    all: bool,
) -> (r: (CleanState, Vec<CleanAction>))
    requires
        state matches CleanState::CheckingDocker { selection, .. } ==> valid_selection(arts@, selection@),
        state matches CleanState::Confirming { selection, .. } ==> valid_selection(arts@, selection@),
        event matches CleanEvent::Picked(p) ==> valid_selection(arts@, p@),
    ensures
        (state_view(r.0), actions_view(r.1@)) == step_spec(
            state_view(state),
            event_view(event),
            arts@,
            dry_run,
            all,
        ),
        r.0 matches CleanState::CheckingDocker { selection, .. } ==> valid_selection(arts@, selection@),
        r.0 matches CleanState::Confirming { selection, .. } ==> valid_selection(arts@, selection@),
{
    match (state, event) {
        (CleanState::Idle, CleanEvent::Start) => {
            if arts.len() == 0 {
                let acts: Vec<CleanAction> = Vec::new();
                assert(actions_view(acts@) =~= Seq::<ActionView>::empty());
                (CleanState::Done, acts)
            } else if dry_run {
                let acts = vec![CleanAction::ShowDryRun];
                assert(actions_view(acts@) =~= seq![ActionView::ShowDryRun]);
                (CleanState::Done, acts)
            } else if all {
                let everything = all_positions(arts.len());
                let ghost ev = everything@;
                assert(valid_selection(arts@, ev));
                if has_docker_data(arts, &everything) {
                    let acts = vec![CleanAction::ShowSummary(everything.clone()), CleanAction::AskDocker];
                    assert(actions_view(acts@) =~= seq![ActionView::ShowSummary(ev), ActionView::AskDocker]);
                    (CleanState::CheckingDocker { selection: everything, all: true }, acts)
                } else {
                    let acts = vec![CleanAction::ShowSummary(everything.clone()), CleanAction::AskConfirm(1)];
                    assert(actions_view(acts@) =~= seq![ActionView::ShowSummary(ev), ActionView::AskConfirm(1)]);
                    (CleanState::Confirming { selection: everything, question: 1 }, acts)
                }
            } else {
                let acts = vec![CleanAction::AskPick];
                assert(actions_view(acts@) =~= seq![ActionView::AskPick]);
                (CleanState::Picking, acts)
            }
        },
        (CleanState::Picking, CleanEvent::Picked(p)) => {
            if p.len() == 0 {
                let acts = vec![CleanAction::Tell(Notice::NothingSelected)];
                assert(actions_view(acts@) =~= seq![ActionView::Tell(Notice::NothingSelected)]);
                (CleanState::Done, acts)
            } else {
                after_selection_exec(arts, p, false)
            }
        },
        (CleanState::CheckingDocker { selection, all: all_mode }, CleanEvent::DockerRunning(running)) => {
            if running {
                let acts = vec![CleanAction::Tell(Notice::DockerIsRunning)];
                assert(actions_view(acts@) =~= seq![ActionView::Tell(Notice::DockerIsRunning)]);
                (CleanState::Done, acts)
            } else if all_mode {
                let acts = vec![CleanAction::AskConfirm(1)];
                assert(actions_view(acts@) =~= seq![ActionView::AskConfirm(1)]);
                (CleanState::Confirming { selection, question: 1 }, acts)
            } else {
                let ghost sv = selection@;
                let acts = vec![CleanAction::ShowSummary(selection.clone()), CleanAction::AskConfirm(0)];
                assert(actions_view(acts@) =~= seq![ActionView::ShowSummary(sv), ActionView::AskConfirm(0)]);
                (CleanState::Confirming { selection, question: 0 }, acts)
            }
        },
        (CleanState::Confirming { selection, question }, CleanEvent::Answered(yes)) => {
            if !yes {
                let acts = vec![CleanAction::Tell(Notice::Aborted)];
                assert(actions_view(acts@) =~= seq![ActionView::Tell(Notice::Aborted)]);
                (CleanState::Done, acts)
            } else if question == 1 {
                let acts = vec![CleanAction::AskConfirm(2)];
                assert(actions_view(acts@) =~= seq![ActionView::AskConfirm(2)]);
                (CleanState::Confirming { selection, question: 2 }, acts)
            } else {
                let ghost sv = selection@;
                let acts = vec![CleanAction::Delete(selection)];
                assert(actions_view(acts@) =~= seq![ActionView::Delete(sv)]);
                (CleanState::Done, acts)
            }
        },
        _ => {
            let acts: Vec<CleanAction> = Vec::new();
            assert(actions_view(acts@) =~= Seq::<ActionView>::empty());
            (CleanState::Done, acts)
        },
    }
}


/// The actions of a whole dialogue: the steps taken from `s` on the events
/// in order.
pub open spec fn run_actions(
    s: StateView,
    events: Seq<EventView>,
    arts: Seq<Artifact>,
    dry_run: bool,
    all: bool,
) -> Seq<ActionView>
    decreases events.len(),
{
    if events.len() == 0 {
        Seq::empty()
    } else {
        let next = step_spec(s, events[0], arts, dry_run, all);
        next.1 + run_actions(next.0, events.drop_first(), arts, dry_run, all)
    }
}

/// Some action deletes.
pub open spec fn deletes(acts: Seq<ActionView>) -> bool {
    exists|i: int| 0 <= i < acts.len() && (#[trigger] acts[i]) is Delete
}

/// How many times the user answered yes.
pub open spec fn yes_count(events: Seq<EventView>) -> nat
    decreases events.len(),
{
    if events.len() == 0 {
        0
    } else {
        (if events[0] == EventView::Answered(true) {
            1nat
        } else {
            0nat
        }) + yes_count(events.drop_first())
    }
}

proof fn lemma_deletes_concat(a: Seq<ActionView>, b: Seq<ActionView>)
    ensures
        deletes(a + b) ==> deletes(a) || deletes(b),
{
    if deletes(a + b) {
        let i = choose|i: int| 0 <= i < (a + b).len() && (#[trigger] (a + b)[i]) is Delete;
        if i < a.len() {
            assert(a[i] is Delete);
        } else {
            assert(b[i - a.len()] is Delete);
        }
    }
}

proof fn lemma_done_is_silent(events: Seq<EventView>, arts: Seq<Artifact>, dry_run: bool, all: bool)
    ensures
        run_actions(StateView::Done, events, arts, dry_run, all) == Seq::<ActionView>::empty(),
    decreases events.len(),
{
    if events.len() > 0 {
        lemma_done_is_silent(events.drop_first(), arts, dry_run, all);
    }
}

/// A dry run deletes nothing, whatever happens after it starts.
pub proof fn law_dry_run_never_deletes(events: Seq<EventView>, arts: Seq<Artifact>, all: bool)
    ensures
        !deletes(run_actions(StateView::Idle, events, arts, true, all)),
{
    if events.len() > 0 {
        let next = step_spec(StateView::Idle, events[0], arts, true, all);
        assert(next.0 == StateView::Done);
        lemma_done_is_silent(events.drop_first(), arts, true, all);
        lemma_deletes_concat(next.1, run_actions(next.0, events.drop_first(), arts, true, all));
        assert(!deletes(next.1));
    }
}

/// The answers still owed before a deletion when removing everything.
pub open spec fn owed_all(s: StateView) -> nat {
    match s {
        StateView::Confirming(_, q) => if q == 2 {
            1nat
        } else {
            2nat
        },
        _ => 2nat,
    }
}

/// The states that a dialogue removing everything can be in.
pub open spec fn reachable_all(s: StateView) -> bool {
    match s {
        StateView::Idle => true,
        StateView::Done => true,
        StateView::CheckingDocker(_, a) => a,
        StateView::Confirming(_, q) => q == 1 || q == 2,
        StateView::Picking => false,
    }
}

proof fn lemma_all_owes(s: StateView, events: Seq<EventView>, arts: Seq<Artifact>, dry_run: bool)
    requires
        reachable_all(s),
    ensures
        deletes(run_actions(s, events, arts, dry_run, true)) ==> yes_count(events) >= owed_all(s),
    decreases events.len(),
{
    if events.len() > 0 {
        let next = step_spec(s, events[0], arts, dry_run, true);
        let rest = run_actions(next.0, events.drop_first(), arts, dry_run, true);
        lemma_deletes_concat(next.1, rest);
        assert(reachable_all(next.0));
        lemma_all_owes(next.0, events.drop_first(), arts, dry_run);
        if deletes(next.1) {
            let i = choose|i: int| 0 <= i < next.1.len() && (#[trigger] next.1[i]) is Delete;
            assert(events[0] == EventView::Answered(true));
        }
    }
}

/// Removing everything deletes nothing unless the user answered yes twice.
pub proof fn law_all_asks_twice(events: Seq<EventView>, arts: Seq<Artifact>, dry_run: bool)
    ensures
        deletes(run_actions(StateView::Idle, events, arts, dry_run, true)) ==> yes_count(events)
            >= 2,
{
    lemma_all_owes(StateView::Idle, events, arts, dry_run);
}

/// The answers still owed before a deletion after picking.
pub open spec fn owed_pick(s: StateView) -> nat {
    match s {
        StateView::Confirming(_, q) => if q == 1 {
            2nat
        } else {
            1nat
        },
        StateView::CheckingDocker(_, a) => if a {
            2nat
        } else {
            1nat
        },
        _ => 1nat,
    }
}

proof fn lemma_pick_owes(s: StateView, events: Seq<EventView>, arts: Seq<Artifact>, dry_run: bool)
    ensures
        deletes(run_actions(s, events, arts, dry_run, false)) ==> yes_count(events) >= owed_pick(s),
    decreases events.len(),
{
    if events.len() > 0 {
        let next = step_spec(s, events[0], arts, dry_run, false);
        let rest = run_actions(next.0, events.drop_first(), arts, dry_run, false);
        lemma_deletes_concat(next.1, rest);
        lemma_pick_owes(next.0, events.drop_first(), arts, dry_run);
        assert(yes_count(events) == (if events[0] == EventView::Answered(true) {
            1nat
        } else {
            0nat
        }) + yes_count(events.drop_first()));
        if deletes(rest) {
            assert(next.0 != StateView::Done) by {
                if next.0 == StateView::Done {
                    lemma_done_is_silent(events.drop_first(), arts, dry_run, false);
                }
            }
            assert(owed_pick(s) <= owed_pick(next.0) + if events[0] == EventView::Answered(true) {
                1nat
            } else {
                0nat
            });
        }
        if deletes(next.1) {
            let i = choose|i: int| 0 <= i < next.1.len() && (#[trigger] next.1[i]) is Delete;
            assert(events[0] == EventView::Answered(true));
        }
    }
}

/// A cherry-picking dialogue deletes nothing unless the user answered yes.
pub proof fn law_pick_needs_yes(events: Seq<EventView>, arts: Seq<Artifact>, dry_run: bool)
    ensures
        deletes(run_actions(StateView::Idle, events, arts, dry_run, false)) ==> yes_count(events)
            >= 1,
{
    lemma_pick_owes(StateView::Idle, events, arts, dry_run);
}

/// The dialogue reports that Docker is not running.
pub open spec fn docker_cleared(events: Seq<EventView>) -> bool {
    exists|i: int| 0 <= i < events.len() && events[i] == EventView::DockerRunning(false)
}

/// The action deletes a selection that holds Docker data.
pub open spec fn removes_docker(a: ActionView, arts: Seq<Artifact>) -> bool {
    match a {
        ActionView::Delete(sel) => has_docker(arts, sel),
        _ => false,
    }
}

/// Some action deletes a selection that holds Docker data.
pub open spec fn deletes_docker(acts: Seq<ActionView>, arts: Seq<Artifact>) -> bool {
    exists|i: int|
        0 <= i < acts.len() && removes_docker(#[trigger] acts[i], arts)
}

proof fn lemma_deletes_docker_concat(a: Seq<ActionView>, b: Seq<ActionView>, arts: Seq<Artifact>)
    ensures
        deletes_docker(a + b, arts) ==> deletes_docker(a, arts) || deletes_docker(b, arts),
{
    if deletes_docker(a + b, arts) {
        let i = choose|i: int|
            0 <= i < (a + b).len() && removes_docker(#[trigger] (a + b)[i], arts);
        if i < a.len() {
            assert(a[i] == (a + b)[i]);
        } else {
            assert(b[i - a.len()] == (a + b)[i]);
        }
    }
}

proof fn lemma_docker_checked(
    s: StateView,
    events: Seq<EventView>,
    arts: Seq<Artifact>,
    dry_run: bool,
    all: bool,
    seen: bool,
)
    requires
        s matches StateView::Confirming(sel, _) ==> (has_docker(arts, sel) ==> seen),
    ensures
        deletes_docker(run_actions(s, events, arts, dry_run, all), arts) ==> seen || docker_cleared(events),
    decreases events.len(),
{
    if events.len() > 0 {
        let next = step_spec(s, events[0], arts, dry_run, all);
        let rest_events = events.drop_first();
        let rest = run_actions(next.0, rest_events, arts, dry_run, all);
        lemma_deletes_docker_concat(next.1, rest, arts);
        let seen2 = seen || events[0] == EventView::DockerRunning(false);
        lemma_docker_checked(next.0, rest_events, arts, dry_run, all, seen2);
        if docker_cleared(rest_events) {
            let i = choose|i: int| 0 <= i < rest_events.len() && rest_events[i] == EventView::DockerRunning(false);
            assert(events[i + 1] == rest_events[i]);
        }
        if deletes_docker(next.1, arts) {
            let i = choose|i: int|
                0 <= i < next.1.len() && removes_docker(#[trigger] next.1[i], arts);
            assert(events[0] == EventView::Answered(true));
        }
        if seen2 && !seen {
            assert(events[0] == EventView::DockerRunning(false));
        }
    }
}

/// Docker data is deleted only after the program has reported that Docker
/// is not running.
pub proof fn law_docker_must_be_stopped(
    events: Seq<EventView>,
    arts: Seq<Artifact>,
    dry_run: bool,
    all: bool,
)
    ensures
        deletes_docker(run_actions(StateView::Idle, events, arts, dry_run, all), arts)
            ==> docker_cleared(events),
{
    lemma_docker_checked(StateView::Idle, events, arts, dry_run, all, false);
}


/// Removing everything, when the user answers yes to both questions and,
/// where Docker data is among the artefacts, Docker is reported stopped,
/// deletes every artefact found, after the summary.
pub proof fn law_all_yes_deletes_everything(arts: Seq<Artifact>)
    requires
        arts.len() > 0,
    ensures
        !has_docker(arts, everything(arts.len())) ==> run_actions(
            StateView::Idle,
            seq![EventView::Start, EventView::Answered(true), EventView::Answered(true)],
            arts,
            false,
            true,
        ) == seq![
            ActionView::ShowSummary(everything(arts.len())),
            ActionView::AskConfirm(1),
            ActionView::AskConfirm(2),
            ActionView::Delete(everything(arts.len())),
        ],
        has_docker(arts, everything(arts.len())) ==> run_actions(
            StateView::Idle,
            seq![
                EventView::Start,
                EventView::DockerRunning(false),
                EventView::Answered(true),
                EventView::Answered(true),
            ],
            arts,
            false,
            true,
        ) == seq![
            ActionView::ShowSummary(everything(arts.len())),
            ActionView::AskDocker,
            ActionView::AskConfirm(1),
            ActionView::AskConfirm(2),
            ActionView::Delete(everything(arts.len())),
        ],
{
    let ev = everything(arts.len());
    let yes2 = seq![EventView::Answered(true), EventView::Answered(true)];
    lemma_done_is_silent(yes2.drop_first().drop_first(), arts, false, true);
    assert(run_actions(StateView::Confirming(ev, 2), yes2.drop_first(), arts, false, true) =~= seq![
        ActionView::Delete(ev),
    ]);
    assert(run_actions(StateView::Confirming(ev, 1), yes2, arts, false, true) =~= seq![
        ActionView::AskConfirm(2),
        ActionView::Delete(ev),
    ]);
    if has_docker(arts, ev) {
        let events = seq![
            EventView::Start,
            EventView::DockerRunning(false),
            EventView::Answered(true),
            EventView::Answered(true),
        ];
        assert(events.drop_first().drop_first() =~= yes2);
        assert(run_actions(StateView::CheckingDocker(ev, true), events.drop_first(), arts, false, true)
            =~= seq![ActionView::AskConfirm(1), ActionView::AskConfirm(2), ActionView::Delete(ev)]);
        assert(run_actions(StateView::Idle, events, arts, false, true) =~= seq![
            ActionView::ShowSummary(ev),
            ActionView::AskDocker,
            ActionView::AskConfirm(1),
            ActionView::AskConfirm(2),
            ActionView::Delete(ev),
        ]);
    } else {
        let events = seq![EventView::Start, EventView::Answered(true), EventView::Answered(true)];
        assert(events.drop_first() =~= yes2);
        assert(run_actions(StateView::Idle, events, arts, false, true) =~= seq![
            ActionView::ShowSummary(ev),
            ActionView::AskConfirm(1),
            ActionView::AskConfirm(2),
            ActionView::Delete(ev),
        ]);
    }
}

/// Picking artefacts and answering yes, where Docker data is among the
/// pick only once Docker is reported stopped, deletes exactly the pick,
/// after its summary.
pub proof fn law_pick_yes_deletes_pick(arts: Seq<Artifact>, pick: Seq<usize>)
    requires
        arts.len() > 0,
        pick.len() > 0,
    ensures
        !has_docker(arts, pick) ==> run_actions(
            StateView::Idle,
            seq![EventView::Start, EventView::Picked(pick), EventView::Answered(true)],
            arts,
            false,
            false,
        ) == seq![
            ActionView::AskPick,
            ActionView::ShowSummary(pick),
            ActionView::AskConfirm(0),
            ActionView::Delete(pick),
        ],
        has_docker(arts, pick) ==> run_actions(
            StateView::Idle,
            seq![
                EventView::Start,
                EventView::Picked(pick),
                EventView::DockerRunning(false),
                EventView::Answered(true),
            ],
            arts,
            false,
            false,
        ) == seq![
            ActionView::AskPick,
            ActionView::AskDocker,
            ActionView::ShowSummary(pick),
            ActionView::AskConfirm(0),
            ActionView::Delete(pick),
        ],
{
    let yes1 = seq![EventView::Answered(true)];
    lemma_done_is_silent(yes1.drop_first(), arts, false, false);
    assert(run_actions(StateView::Confirming(pick, 0), yes1, arts, false, false) =~= seq![
        ActionView::Delete(pick),
    ]);
    if has_docker(arts, pick) {
        let events = seq![
            EventView::Start,
            EventView::Picked(pick),
            EventView::DockerRunning(false),
            EventView::Answered(true),
        ];
        let e1 = events.drop_first();
        let e2 = e1.drop_first();
        assert(e2.drop_first() =~= yes1);
        assert(run_actions(StateView::CheckingDocker(pick, false), e2, arts, false, false) =~= seq![
            ActionView::ShowSummary(pick),
            ActionView::AskConfirm(0),
            ActionView::Delete(pick),
        ]);
        assert(run_actions(StateView::Picking, e1, arts, false, false) =~= seq![
            ActionView::AskDocker,
            ActionView::ShowSummary(pick),
            ActionView::AskConfirm(0),
            ActionView::Delete(pick),
        ]);
        assert(run_actions(StateView::Idle, events, arts, false, false) =~= seq![
            ActionView::AskPick,
            ActionView::AskDocker,
            ActionView::ShowSummary(pick),
            ActionView::AskConfirm(0),
            ActionView::Delete(pick),
        ]);
    } else {
        let events = seq![EventView::Start, EventView::Picked(pick), EventView::Answered(true)];
        let e1 = events.drop_first();
        assert(e1.drop_first() =~= yes1);
        assert(run_actions(StateView::Picking, e1, arts, false, false) =~= seq![
            ActionView::ShowSummary(pick),
            ActionView::AskConfirm(0),
            ActionView::Delete(pick),
        ]);
        assert(run_actions(StateView::Idle, events, arts, false, false) =~= seq![
            ActionView::AskPick,
            ActionView::ShowSummary(pick),
            ActionView::AskConfirm(0),
            ActionView::Delete(pick),
        ]);
    }
}

/// The text of a question of the dialogue.
pub open spec fn question_text(q: u8) -> Seq<char> {
    if q == 1 {
        "Remove all artefacts? (1/2)"@
    } else if q == 2 {
        "Are you absolutely sure? (2/2)"@
    } else {
        "Proceed?"@
    }
}

/// The text of a question of the dialogue.
pub fn question(q: u8) -> (r: &'static str)
    ensures
        r@ == question_text(q),
{
    if q == 1 {
        "Remove all artefacts? (1/2)"
    } else if q == 2 {
        "Are you absolutely sure? (2/2)"
    } else {
        "Proceed?"
    }
}

/// The text of a notice.
pub open spec fn notice_text(n: Notice) -> Seq<char> {
    match n {
        Notice::NothingSelected => "Nothing selected."@,
        Notice::Aborted => "Aborted."@,
        Notice::DockerIsRunning => "Docker is currently running. Stop it before cleaning its data."@,
    }
}

/// The text of a notice.
pub fn notice(n: Notice) -> (r: &'static str)
    ensures
        r@ == notice_text(n),
{
    match n {
        Notice::NothingSelected => "Nothing selected.",
        Notice::Aborted => "Aborted.",
        Notice::DockerIsRunning => "Docker is currently running. Stop it before cleaning its data.",
    }
}

/// The artefacts of a selection, in its order.
pub open spec fn picked(arts: Seq<Artifact>, selection: Seq<usize>) -> Seq<Artifact> {
    selection.map_values(|i: usize| arts[i as int])
}

/// The positions in a selection of the artefacts of kind `k`, in order.
pub open spec fn items_of(arts: Seq<Artifact>, selection: Seq<usize>, k: ArtifactKind) -> Seq<usize> {
    selection.filter(|i: usize| arts[i as int].kind == k)
}

/// `groups` is the selection grouped by kind: one group per kind, in the
/// order in which kinds first occur, each with the positions of its
/// artefacts in order.
pub open spec fn grouped_by_kind(
    groups: Seq<(ArtifactKind, Vec<usize>)>,
    arts: Seq<Artifact>,
    selection: Seq<usize>,
) -> bool {
    let ks = kinds_in_order(picked(arts, selection));
    &&& groups.len() == ks.len()
    &&& forall|m: int|
        0 <= m < groups.len() ==> (#[trigger] groups[m]).0 == ks[m] && groups[m].1@ == items_of(
            arts,
            selection,
            ks[m],
        )
}

proof fn lemma_kinds_distinct(arts: Seq<Artifact>)
    ensures
        kinds_in_order(arts).no_duplicates(),
        forall|i: int| 0 <= i < arts.len() ==> kinds_in_order(arts).contains(#[trigger] arts[i].kind),
    decreases arts.len(),
{
    if arts.len() > 0 {
        let d = arts.drop_last();
        lemma_kinds_distinct(d);
        assert forall|i: int| 0 <= i < arts.len() implies kinds_in_order(arts).contains(
            #[trigger] arts[i].kind,
        ) by {
            if i < d.len() {
                assert(d[i] == arts[i]);
                assert(kinds_in_order(d).contains(d[i].kind));
            }
        }
    }
}

/// Groups a selection by kind, in the order in which kinds first occur.
pub fn group_by_kind(arts: &[Artifact], selection: &Vec<usize>) -> (groups: Vec<(ArtifactKind, Vec<usize>)>)
    requires
        valid_selection(arts@, selection@),
    ensures
        grouped_by_kind(groups@, arts@, selection@),
{
    let mut groups: Vec<(ArtifactKind, Vec<usize>)> = Vec::new();
    let mut i: usize = 0;
    while i < selection.len()
        invariant
            i <= selection@.len(),
            valid_selection(arts@, selection@),
            grouped_by_kind(groups@, arts@, selection@.take(i as int)),
        decreases selection@.len() - i,
    {
        let ghost pre = selection@.take(i as int);
        let ghost post = selection@.take(i + 1);
        let idx = selection[i];
        let k = arts[idx].kind;
        proof {
            assert(post == pre.push(idx));
            assert(picked(arts@, post) =~= picked(arts@, pre).push(arts@[idx as int]));
            assert(picked(arts@, post).drop_last() == picked(arts@, pre));
            lemma_kinds_distinct(picked(arts@, pre));
            reveal(Seq::filter);
            assert(pre.push(idx).drop_last() == pre);
        }
        let mut j: usize = 0;
        while j < groups.len() && groups[j].0 != k
            invariant
                j <= groups@.len(),
                grouped_by_kind(groups@, arts@, pre),
                forall|m: int| 0 <= m < j ==> groups@[m].0 != k,
            decreases groups@.len() - j,
        {
            j = j + 1;
        }
        if j < groups.len() {
            let ghost before = groups@;
            let mut g = groups.remove(j);
            g.1.push(idx);
            groups.insert(j, g);
            proof {
                let ks = kinds_in_order(picked(arts@, pre));
                assert(before[j as int].0 == ks[j as int]);
                assert(ks[j as int] == k);
                assert(ks.contains(k));
                assert(kinds_in_order(picked(arts@, post)) == ks);
                assert forall|m: int| 0 <= m < groups@.len() implies (#[trigger] groups@[m]).0 == ks[m]
                    && groups@[m].1@ == items_of(arts@, post, ks[m]) by {
                    assert(before[m].0 == ks[m]);
                    if m != j {
                        assert(ks[m] != k);
                        assert(groups@[m] == before[m]);
                    }
                }
            }
        } else {
            let mut items: Vec<usize> = Vec::new();
            items.push(idx);
            let ghost before = groups@;
            groups.push((k, items));
            proof {
                let ks = kinds_in_order(picked(arts@, pre));
                assert forall|m: int| 0 <= m < ks.len() implies ks[m] != k by {
                    assert(before[m].0 == ks[m]);
                }
                assert(!ks.contains(k));
                assert(kinds_in_order(picked(arts@, post)) == ks.push(k));
                assert(items_of(arts@, pre, k) =~= Seq::<usize>::empty()) by {
                    assert forall|t: int| 0 <= t < pre.len() implies arts@[pre[t] as int].kind != k by {
                        assert(picked(arts@, pre)[t] == arts@[pre[t] as int]);
                        assert(ks.contains(picked(arts@, pre)[t].kind));
                    }
                    let pred = |x: usize| arts@[x as int].kind == k;
                    assert(pre.all(|x: usize| !pred(x)));
                    pre.lemma_all_neg_filter_empty(pred);
                }
                assert forall|m: int| 0 <= m < groups@.len() implies (#[trigger] groups@[m]).0 == kinds_in_order(
                    picked(arts@, post),
                )[m] && groups@[m].1@ == items_of(arts@, post, kinds_in_order(picked(arts@, post))[m]) by {
                    if m < before.len() {
                        assert(before[m].0 == ks[m]);
                        assert(ks[m] != k);
                        assert(groups@[m] == before[m]);
                    } else {
                        assert(items@ =~= seq![idx]);
                    }
                }
            }
        }
        i = i + 1;
    }
    assert(selection@.take(selection@.len() as int) == selection@);
    groups
}


/// The bytes of the selected artefacts together.
pub fn selection_total(arts: &[Artifact], selection: &Vec<usize>) -> (t: u64)
    requires
        valid_selection(arts@, selection@),
        total_size(picked(arts@, selection@)) <= u64::MAX,
    ensures
        t == total_size(picked(arts@, selection@)),
{
    let mut t: u64 = 0;
    let mut i: usize = 0;
    while i < selection.len()
        invariant
            i <= selection@.len(),
            valid_selection(arts@, selection@),
            total_size(picked(arts@, selection@)) <= u64::MAX,
            t == total_size(picked(arts@, selection@.take(i as int))),
        decreases selection@.len() - i,
    {
        proof {
            let p = picked(arts@, selection@);
            assert(picked(arts@, selection@.take(i + 1)) == p.take(i + 1));
            assert(picked(arts@, selection@.take(i as int)) == p.take(i as int));
            crate::scanner::lemma_total_size_prefix(p, i + 1);
            assert(p.take(i + 1).drop_last() == p.take(i as int));
        }
        t = t + arts[selection[i]].size;
        i = i + 1;
    }
    assert(selection@.take(i as int) == selection@);
    t
}

/// The first line of the removal summary.
pub open spec fn removal_header_text(count: nat, total: nat) -> Seq<char> {
    "About to remove "@ + decimal(count) + (if count == 1 {
        " artefact ("@
    } else {
        " artefacts ("@
    }) + human_size_text(total) + " total):"@
}

/// The first line of the removal summary.
pub fn removal_header(count: usize, total: u64) -> (r: String)
    ensures
        r@ == removal_header_text(count as nat, total as nat),
{
    let mut r = String::from_str("About to remove ");
    push_decimal(&mut r, count as u64);
    if count == 1 {
        r.append(" artefact (");
    } else {
        r.append(" artefacts (");
    }
    let size = human_size(total);
    r.append(size.as_str());
    r.append(" total):");
    r
}

/// The columns of a kind's line in the removal summary: the label in 18
/// characters, the number of paths in 4, the word "path " or "paths", and
/// the kind's bytes.
pub fn removal_columns(kind: ArtifactKind, count: usize, total: u64) -> (r: (String, String, &'static str, String))
    ensures
        r.0@ == pad_right_spec(crate::scanner::kind_label(kind), 18),
        r.1@ == pad_left_spec(decimal(count as nat), 4),
        r.2@ == (if count == 1 { "path "@ } else { "paths"@ }),
        r.3@ == human_size_text(total as nat),
{
    let label = pad_right(kind.label(), 18);
    let n = crate::text::decimal_string(count as u64);
    let count_col = pad_left(n.as_str(), 4);
    let noun = if count == 1 {
        "path "
    } else {
        "paths"
    };
    (label, count_col, noun, human_size(total))
}

/// The paths of a kind that the summary shows: the first three.
pub const SHOWN_PATHS: usize = 3;

/// The line that stands for the paths of a kind beyond the first three.
pub fn more_paths(count: usize) -> (r: Option<String>)
    ensures
        count <= SHOWN_PATHS ==> r is None,
        count > SHOWN_PATHS ==> (r matches Some(t) && t@ == "… and "@ + decimal((count - 3) as nat)
            + " more"@),
{
    if count > SHOWN_PATHS {
        let mut t = String::from_str("… and ");
        push_decimal(&mut t, (count - 3) as u64);
        t.append(" more");
        Some(t)
    } else {
        None
    }
}

/// The last line of a dry run.
pub fn dry_run_freed(total: u64) -> (r: String)
    ensures
        r@ == human_size_text(total as nat) + " would be freed."@,
{
    let mut r = human_size(total);
    r.append(" would be freed.");
    r
}

/// The bytes of the removals that succeeded.
pub open spec fn freed_spec(results: Seq<(bool, u64)>) -> nat
    decreases results.len(),
{
    if results.len() == 0 {
        0
    } else {
        freed_spec(results.drop_last()) + if results.last().0 {
            results.last().1 as nat
        } else {
            0nat
        }
    }
}

/// The number of removals that failed.
pub open spec fn failed_spec(results: Seq<(bool, u64)>) -> nat
    decreases results.len(),
{
    if results.len() == 0 {
        0
    } else {
        failed_spec(results.drop_last()) + if results.last().0 {
            0nat
        } else {
            1nat
        }
    }
}

proof fn lemma_tally_prefix(results: Seq<(bool, u64)>, i: int)
    requires
        0 <= i <= results.len(),
    ensures
        freed_spec(results.take(i)) <= freed_spec(results),
        failed_spec(results.take(i)) <= i,
    decreases results.len() - i,
{
    if i < results.len() {
        lemma_tally_prefix(results, i + 1);
        assert(results.take(i + 1).drop_last() == results.take(i));
    } else {
        assert(results.take(i) == results);
    }
    lemma_failed_le_len(results.take(i));
}

proof fn lemma_failed_le_len(results: Seq<(bool, u64)>)
    ensures
        failed_spec(results) <= results.len(),
    decreases results.len(),
{
    if results.len() > 0 {
        lemma_failed_le_len(results.drop_last());
    }
}

/// Counts the outcome of the removals: for each artefact, whether its
/// removal succeeded and its bytes. Gives the bytes freed and the number
/// of failures.
pub fn tally(results: &Vec<(bool, u64)>) -> (r: (u64, usize))
    requires
        freed_spec(results@) <= u64::MAX,
    ensures
        r.0 == freed_spec(results@),
        r.1 == failed_spec(results@),
{
    let mut freed: u64 = 0;
    let mut failed: usize = 0;
    let mut i: usize = 0;
    while i < results.len()
        invariant
            i <= results@.len(),
            freed_spec(results@) <= u64::MAX,
            freed == freed_spec(results@.take(i as int)),
            failed == failed_spec(results@.take(i as int)),
        decreases results@.len() - i,
    {
        proof {
            lemma_tally_prefix(results@, i + 1);
            assert(results@.take(i + 1).drop_last() == results@.take(i as int));
        }
        let (ok, size) = results[i];
        if ok {
            freed = freed + size;
        } else {
            failed = failed + 1;
        }
        i = i + 1;
    }
    assert(results@.take(i as int) == results@);
    (freed, failed)
}

/// What the tool says after deleting.
pub open spec fn deletion_message_text(freed: nat, failed: nat) -> Seq<char> {
    if failed == 0 {
        "Done. Freed "@ + human_size_text(freed) + "."@
    } else {
        "Done. Freed "@ + human_size_text(freed) + ". "@ + decimal(failed) + (if failed == 1 {
            " item could not be removed (permission denied?)."@
        } else {
            " items could not be removed (permission denied?)."@
        })
    }
}

/// The message after deleting.
pub fn deletion_message(freed: u64, failed: usize) -> (r: String)
    ensures
        r@ == deletion_message_text(freed as nat, failed as nat),
{
    let mut r = String::from_str("Done. Freed ");
    let size = human_size(freed);
    r.append(size.as_str());
    if failed == 0 {
        r.append(".");
    } else {
        r.append(". ");
        push_decimal(&mut r, failed as u64);
        if failed == 1 {
            r.append(" item could not be removed (permission denied?).");
        } else {
            r.append(" items could not be removed (permission denied?).");
        }
    }
    r
}

/// The line under which an artefact is offered for picking: label in 18
/// characters, size in 10, then the path as shown to people.
pub open spec fn pick_label_text(a: Artifact, home: Option<Seq<char>>) -> Seq<char> {
    pad_right_spec(crate::scanner::kind_label(a.kind), 18) + "  "@ + pad_left_spec(
        human_size_text(a.size as nat),
        10,
    ) + "  "@ + display_path_spec(a.path@, home)
}

/// The line under which an artefact is offered for picking.
pub fn pick_label(a: &Artifact, home: Option<&str>) -> (r: String)
    ensures
        r@ == pick_label_text(*a, opt_view(home)),
{
    let mut r = pad_right(a.kind.label(), 18);
    r.append("  ");
    let size = human_size(a.size);
    let size_col = pad_left(size.as_str(), 10);
    r.append(size_col.as_str());
    r.append("  ");
    let shown = display_path(a.path.as_str(), home);
    r.append(shown.as_str());
    r
}

} // verus!
