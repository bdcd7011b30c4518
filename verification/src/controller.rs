//! The selection controller: a state machine over one interactive session.
//!
//! Each refresh cycle, the unverified shell reports the user's input as
//! events against the ranked list of that cycle; the controller answers with
//! the session's next state and the window action to perform, and the shell
//! carries the action out through the OS. The controller itself touches no
//! OS state.
use vstd::prelude::*;

use crate::entry::Window;
use crate::handle::WindowHandle;
use crate::matching::{
    fuzzy_score_of, lemma_rank_fuzzy_single, lemma_rank_substring_len,
    lemma_rank_substring_single, lemma_score_fuzzy_len, lemma_sort_desc_len,
    spec_fuzzy_match_count, spec_rank_fuzzy, spec_rank_substring, spec_substring_match_count,
    with_score,
};
use crate::text::spec_substring_match;

verus! {

/// The session is `Idle` while it accepts input; `Terminating` once the user
/// has picked a window, pressed Escape, or the shell was told to close. A
/// terminating session accepts no further input.
#[derive(Clone, Copy, PartialEq, Eq, Structural, Debug)]
pub enum SessionState {
    Idle,
    Terminating,
}

/// One input event of the current cycle, against the current ranked list.
/// Indices name positions in that list.
#[derive(Clone, Copy, PartialEq, Eq, Structural, Debug)]
pub enum UiEvent {
    /// The query text changed; scores are recomputed anyway every cycle.
    QueryEdited,
    /// Escape: end the session without touching any window.
    EscapePressed,
    /// Enter: activate the single match, if exactly one entry remains.
    EnterPressed,
    /// A presented entry was clicked.
    EntryClicked(usize),
    /// Delete while a presented entry has input focus.
    DeletePressed(usize),
    /// Shift+Delete while a presented entry has input focus.
    ShiftDeletePressed(usize),
}

/// What the shell must do to the outside world after a step.
#[derive(Clone, Copy, PartialEq, Eq, Structural, Debug)]
pub enum Action {
    /// Touch nothing.
    Nothing,
    /// Bring the window to the foreground (restore it first if minimized).
    Activate(WindowHandle),
    /// Send the window a graceful close signal; await nothing.
    RequestClose(WindowHandle),
    /// Send the window's process a termination signal stronger than a
    /// graceful close; await nothing.
    ForceQuit(WindowHandle),
}

/// Event indices must name presented entries.
pub open spec fn event_in_range(ev: UiEvent, len: nat) -> bool {
    match ev {
        UiEvent::EntryClicked(i) => i < len,
        UiEvent::DeletePressed(i) => i < len,
        UiEvent::ShiftDeletePressed(i) => i < len,
        _ => true,
    }
}

/// The controller's transition function.
///
/// Escape and any activation end the session. Enter activates the ranked
/// list's single entry when exactly one remains, and is a deliberate no-op
/// otherwise. The two destructive hotkeys signal the targeted window and
/// leave the session running; the next cycles' enumerations drop the entry
/// once the OS reports the window gone.
pub open spec fn spec_step(st: SessionState, ranked: Seq<Window>, ev: UiEvent) -> (SessionState,
    Action) {
    if st is Terminating {
        (SessionState::Terminating, Action::Nothing)
    } else {
        match ev {
            UiEvent::QueryEdited => (SessionState::Idle, Action::Nothing),
            UiEvent::EscapePressed => (SessionState::Terminating, Action::Nothing),
            UiEvent::EnterPressed => if ranked.len() == 1 {
                (SessionState::Terminating, Action::Activate(ranked[0].window))
            } else {
                (SessionState::Idle, Action::Nothing)
            },
            UiEvent::EntryClicked(i) => (
                SessionState::Terminating,
                Action::Activate(ranked[i as int].window),
            ),
            UiEvent::DeletePressed(i) => (
                SessionState::Idle,
                Action::RequestClose(ranked[i as int].window),
            ),
            UiEvent::ShiftDeletePressed(i) => (
                SessionState::Idle,
                Action::ForceQuit(ranked[i as int].window),
            ),
        }
    }
}

/// Runs one controller step against the cycle's ranked list.
pub fn step(st: SessionState, ranked: &Vec<Window>, ev: UiEvent) -> (r: (SessionState, Action))
    requires
        event_in_range(ev, ranked@.len()),
    ensures
        r == spec_step(st, ranked@, ev),
{
    match st {
        SessionState::Terminating => (SessionState::Terminating, Action::Nothing),
        SessionState::Idle => match ev {
            UiEvent::QueryEdited => (SessionState::Idle, Action::Nothing),
            UiEvent::EscapePressed => (SessionState::Terminating, Action::Nothing),
            UiEvent::EnterPressed => {
                if ranked.len() == 1 {
                    (SessionState::Terminating, Action::Activate(ranked[0].window))
                } else {
                    (SessionState::Idle, Action::Nothing)
                }
            },
            UiEvent::EntryClicked(i) => (
                SessionState::Terminating,
                Action::Activate(ranked[i].window),
            ),
            UiEvent::DeletePressed(i) => (
                SessionState::Idle,
                Action::RequestClose(ranked[i].window),
            ),
            UiEvent::ShiftDeletePressed(i) => (
                SessionState::Idle,
                Action::ForceQuit(ranked[i].window),
            ),
        },
    }
}

/// How the gateway activates a window: restore it when it is minimized,
/// otherwise simply show it; the shell then asks the OS for foreground focus.
#[derive(Clone, Copy, PartialEq, Eq, Structural, Debug)]
pub enum ShowCommand {
    Restore,
    Show,
}

/// The activation rule of the window action gateway.
pub fn show_command(minimized: bool) -> (c: ShowCommand)
    ensures
        c == if minimized {
            ShowCommand::Restore
        } else {
            ShowCommand::Show
        },
{
    if minimized {
        ShowCommand::Restore
    } else {
        ShowCommand::Show
    }
}

/// Single-match auto-activation: when the fuzzy scorer matches exactly one
/// entry of the cycle, Enter activates that entry's window and ends the
/// session, whichever element holds input focus.
pub proof fn lemma_enter_single_match(entries: Seq<Window>, q: Seq<char>, i: int)
    requires
        0 <= i < entries.len(),
        fuzzy_score_of(entries[i].name@, q) is Some,
        forall|j: int|
            0 <= j < entries.len() && j != i ==> fuzzy_score_of(
                (#[trigger] entries[j]).name@,
                q,
            ) is None,
    ensures
        spec_step(SessionState::Idle, spec_rank_fuzzy(entries, q), UiEvent::EnterPressed) == (
            SessionState::Terminating,
            Action::Activate(entries[i].window),
        ),
{
    lemma_rank_fuzzy_single(entries, q, i);
    let x = with_score(entries[i], Some(fuzzy_score_of(entries[i].name@, q)->Some_0));
    assert(spec_rank_fuzzy(entries, q)[0] == x);
    assert(x.window == entries[i].window);
}

/// When the fuzzy scorer matches no entry, or more than one, Enter activates
/// nothing and the session stays idle.
pub proof fn lemma_enter_without_single_match(entries: Seq<Window>, q: Seq<char>)
    requires
        spec_fuzzy_match_count(entries, q) != 1,
    ensures
        spec_step(SessionState::Idle, spec_rank_fuzzy(entries, q), UiEvent::EnterPressed) == (
            SessionState::Idle,
            Action::Nothing,
        ),
{
    lemma_score_fuzzy_len(entries, q);
    lemma_sort_desc_len(crate::matching::spec_score_fuzzy(entries, q));
}

/// Single-match auto-activation under the substring policy: when exactly one
/// entry's title contains the query, Enter activates that entry's window and
/// ends the session.
pub proof fn lemma_enter_single_match_substring(entries: Seq<Window>, q: Seq<char>, i: int)
    requires
        0 <= i < entries.len(),
        spec_substring_match(entries[i].name@, q),
        forall|j: int|
            0 <= j < entries.len() && j != i ==> !spec_substring_match(
                (#[trigger] entries[j]).name@,
                q,
            ),
    ensures
        spec_step(SessionState::Idle, spec_rank_substring(entries, q), UiEvent::EnterPressed) == (
            SessionState::Terminating,
            Action::Activate(entries[i].window),
        ),
{
    lemma_rank_substring_single(entries, q, i);
    let x = with_score(entries[i], Some(0i64));
    assert(spec_rank_substring(entries, q)[0] == x);
    assert(x.window == entries[i].window);
}

/// When the substring policy matches no entry, or more than one, Enter
/// activates nothing and the session stays idle.
pub proof fn lemma_enter_without_single_match_substring(entries: Seq<Window>, q: Seq<char>)
    requires
        spec_substring_match_count(entries, q) != 1,
    ensures
        spec_step(SessionState::Idle, spec_rank_substring(entries, q), UiEvent::EnterPressed) == (
            SessionState::Idle,
            Action::Nothing,
        ),
{
    lemma_rank_substring_len(entries, q);
}

} // verus!
