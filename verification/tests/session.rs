use focus_window::controller::{show_command, step, Action, SessionState, ShowCommand, UiEvent};
use focus_window::entry::Window;
use focus_window::handle::WindowHandle;
use focus_window::matching::rank_fuzzy;

fn entries(titles: &[&str]) -> Vec<Window> {
    titles
        .iter()
        .enumerate()
        .map(|(i, t)| Window::new(t.to_string(), WindowHandle::new(i as u64 + 1)))
        .collect()
}

#[test]
fn enter_activates_the_single_match_and_ends_the_session() {
    let ranked = rank_fuzzy(
        entries(&["Mozilla Firefox", "Notepad — untitled", "Windows Terminal"]),
        "term",
    );
    assert_eq!(ranked.len(), 1);
    let (st, act) = step(SessionState::Idle, &ranked, UiEvent::EnterPressed);
    assert_eq!(st, SessionState::Terminating);
    assert_eq!(act, Action::Activate(WindowHandle::new(3)));
}

#[test]
fn enter_does_nothing_on_zero_matches() {
    let ranked = rank_fuzzy(entries(&["Alpha", "Beta"]), "xyz");
    assert_eq!(ranked.len(), 0);
    let (st, act) = step(SessionState::Idle, &ranked, UiEvent::EnterPressed);
    assert_eq!(st, SessionState::Idle);
    assert_eq!(act, Action::Nothing);
}

#[test]
fn enter_does_nothing_on_several_matches() {
    let ranked = rank_fuzzy(entries(&["Visual Studio Code", "Visual Studio 2022"]), "visual");
    assert_eq!(ranked.len(), 2);
    let (st, act) = step(SessionState::Idle, &ranked, UiEvent::EnterPressed);
    assert_eq!(st, SessionState::Idle);
    assert_eq!(act, Action::Nothing);
}

#[test]
fn click_always_activates_the_clicked_entry() {
    let ranked = rank_fuzzy(entries(&["Alpha", "Beta", "Gamma"]), "");
    let (st, act) = step(SessionState::Idle, &ranked, UiEvent::EntryClicked(1));
    assert_eq!(st, SessionState::Terminating);
    assert_eq!(act, Action::Activate(WindowHandle::new(2)));
}

#[test]
fn delete_requests_close_once_and_keeps_the_session_running() {
    let ranked = rank_fuzzy(entries(&["Alpha", "Beta", "Gamma"]), "");
    let (st, act) = step(SessionState::Idle, &ranked, UiEvent::DeletePressed(0));
    assert_eq!(st, SessionState::Idle);
    assert_eq!(act, Action::RequestClose(WindowHandle::new(1)));
}

#[test]
fn shift_delete_force_quits_and_keeps_the_session_running() {
    let ranked = rank_fuzzy(entries(&["Alpha", "Beta", "Gamma"]), "");
    let (st, act) = step(SessionState::Idle, &ranked, UiEvent::ShiftDeletePressed(2));
    assert_eq!(st, SessionState::Idle);
    assert_eq!(act, Action::ForceQuit(WindowHandle::new(3)));
}

#[test]
fn escape_ends_the_session_without_touching_windows() {
    let ranked = rank_fuzzy(entries(&["Alpha"]), "");
    let (st, act) = step(SessionState::Idle, &ranked, UiEvent::EscapePressed);
    assert_eq!(st, SessionState::Terminating);
    assert_eq!(act, Action::Nothing);
}

#[test]
fn a_terminating_session_accepts_no_further_input() {
    let ranked = rank_fuzzy(entries(&["Alpha"]), "");
    let (st, act) = step(SessionState::Terminating, &ranked, UiEvent::EnterPressed);
    assert_eq!(st, SessionState::Terminating);
    assert_eq!(act, Action::Nothing);
    let (st, act) = step(SessionState::Terminating, &ranked, UiEvent::EntryClicked(0));
    assert_eq!(st, SessionState::Terminating);
    assert_eq!(act, Action::Nothing);
}

#[test]
fn query_edits_keep_the_session_idle() {
    let ranked = rank_fuzzy(entries(&["Alpha"]), "");
    let (st, act) = step(SessionState::Idle, &ranked, UiEvent::QueryEdited);
    assert_eq!(st, SessionState::Idle);
    assert_eq!(act, Action::Nothing);
}

#[test]
fn activation_restores_minimized_windows_and_shows_the_rest() {
    assert_eq!(show_command(true), ShowCommand::Restore);
    assert_eq!(show_command(false), ShowCommand::Show);
}
