use focus_window::directory::{ignore_window, is_alt_tab_window, is_eligible, RawWindow};
use focus_window::entry::Window;
use focus_window::enumerate::enumerate;
use focus_window::handle::WindowHandle;

fn raw(
    id: u64,
    visible: bool,
    ex_style: u32,
    title: &str,
    label: Option<&str>,
    root_owner: u64,
    last_active_popup: u64,
) -> RawWindow {
    RawWindow {
        handle: WindowHandle::new(id),
        visible,
        ex_style,
        title: title.to_string(),
        process_label: label.map(|l| l.to_string()),
        root_owner: WindowHandle::new(root_owner),
        last_active_popup: WindowHandle::new(last_active_popup),
    }
}

fn mock_directory() -> Vec<RawWindow> {
    vec![
        // A plain visible window: eligible.
        raw(1, true, 0, "Alpha", Some("alpha.exe"), 1, 1),
        // Invisible: excluded.
        raw(2, false, 0, "Beta", None, 2, 2),
        // Tool window style bit: excluded.
        raw(3, true, 0x80, "Palette", None, 3, 3),
        // Empty title: excluded.
        raw(4, true, 0, "", None, 4, 4),
        // A visible popup owned by window 6: the walk from its root owner
        // stops at the visible popup, which is not the popup itself seen
        // from the owner's side, so the popup is excluded...
        raw(5, true, 0, "Gamma dialog", None, 6, 5),
        // ...while its owner, whose walk stops immediately on the visible
        // popup, represents the chain and is eligible.
        raw(6, true, 0, "Gamma", None, 6, 5),
        // An owner whose last active popup is invisible: the walk advances
        // onto the invisible popup and ends there, away from the owner, so
        // neither the owner...
        raw(7, true, 0, "Delta", None, 7, 8),
        // ...nor the invisible popup appears.
        raw(8, false, 0, "Delta dialog", None, 7, 8),
    ]
}

#[test]
fn filter_keeps_exactly_the_alt_tab_windows() {
    let dir = mock_directory();
    let entries = enumerate(&dir);
    let names: Vec<&str> = entries.iter().map(|e| e.name.as_str()).collect();
    assert_eq!(names, vec!["Alpha", "Gamma"]);
    assert_eq!(entries[0].window, WindowHandle::new(1));
    assert_eq!(entries[1].window, WindowHandle::new(6));
    assert_eq!(entries[0].process_label.as_deref(), Some("alpha.exe"));
    assert_eq!(entries[1].process_label, None);
    assert!(entries.iter().all(|e| e.score.is_none()));
}

#[test]
fn visible_popup_is_not_its_own_representative() {
    let dir = mock_directory();
    assert!(!is_alt_tab_window(&dir, &dir[4]));
    assert!(is_alt_tab_window(&dir, &dir[5]));
    assert!(!is_alt_tab_window(&dir, &dir[6]));
}

#[test]
fn tool_window_style_is_ignored_only_when_bit_set() {
    let dir = mock_directory();
    assert!(ignore_window(&dir[2]));
    assert!(!ignore_window(&dir[0]));
    // Other style bits alone do not exclude a window.
    let styled = raw(9, true, 0x40, "Styled", None, 9, 9);
    assert!(!ignore_window(&styled));
}

#[test]
fn eligibility_requires_all_four_conditions() {
    let dir = mock_directory();
    assert!(is_eligible(&dir, &dir[0]));
    assert!(!is_eligible(&dir, &dir[1])); // invisible
    assert!(!is_eligible(&dir, &dir[2])); // tool window
    assert!(!is_eligible(&dir, &dir[3])); // empty title
    assert!(!is_eligible(&dir, &dir[4])); // owned popup
}

#[test]
fn enumeration_is_idempotent_without_os_changes() {
    let dir = mock_directory();
    let a = enumerate(&dir);
    let b = enumerate(&dir);
    assert_eq!(a.len(), b.len());
    for (x, y) in a.iter().zip(b.iter()) {
        assert_eq!(x.name, y.name);
        assert_eq!(x.window, y.window);
    }
}

#[test]
fn flaky_process_labels_do_not_change_titles_or_handles() {
    let dir = mock_directory();
    let mut relabeled = mock_directory();
    relabeled[0].process_label = None;
    relabeled[5].process_label = Some("gamma.exe".to_string());
    let a = enumerate(&dir);
    let b = enumerate(&relabeled);
    assert_eq!(a.len(), b.len());
    for (x, y) in a.iter().zip(b.iter()) {
        assert_eq!(x.name, y.name);
        assert_eq!(x.window, y.window);
    }
}

#[test]
fn entry_gone_once_the_os_reports_the_window_gone() {
    let mut dir = mock_directory();
    let before = enumerate(&dir);
    assert!(before.iter().any(|e| e.window == WindowHandle::new(1)));
    // The OS confirms window 1 is gone; the next cycle's snapshot lacks it.
    dir.remove(0);
    let after = enumerate(&dir);
    assert!(!after.iter().any(|e| e.window == WindowHandle::new(1)));
}

#[test]
fn window_new_leaves_label_and_score_unset() {
    let w = Window::new("Editor".to_string(), WindowHandle::new(42));
    assert_eq!(w.name, "Editor");
    assert_eq!(w.window, WindowHandle::new(42));
    assert_eq!(w.window.raw(), 42);
    assert!(w.process_label.is_none());
    assert!(w.score.is_none());
}
