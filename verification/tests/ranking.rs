use focus_window::entry::Window;
use focus_window::handle::WindowHandle;
use focus_window::matching::{rank_fuzzy, rank_substring};
use focus_window::text::substring_match;

fn entries(titles: &[&str]) -> Vec<Window> {
    titles
        .iter()
        .enumerate()
        .map(|(i, t)| Window::new(t.to_string(), WindowHandle::new(i as u64 + 1)))
        .collect()
}

fn names(list: &[Window]) -> Vec<String> {
    list.iter().map(|e| e.name.clone()).collect()
}

#[test]
fn term_matches_only_windows_terminal_fuzzy() {
    let out = rank_fuzzy(
        entries(&["Mozilla Firefox", "Notepad — untitled", "Windows Terminal"]),
        "term",
    );
    assert_eq!(names(&out), vec!["Windows Terminal"]);
    assert!(out[0].score.is_some());
}

#[test]
fn term_matches_only_windows_terminal_substring() {
    let out = rank_substring(
        entries(&["Mozilla Firefox", "Notepad — untitled", "Windows Terminal"]),
        "term",
    );
    assert_eq!(names(&out), vec!["Windows Terminal"]);
}

#[test]
fn phrase_match_is_case_insensitive_and_keeps_enumeration_order() {
    let out = rank_substring(
        entries(&["Visual Studio Code", "Visual Studio 2022"]),
        "visual studio",
    );
    assert_eq!(names(&out), vec!["Visual Studio Code", "Visual Studio 2022"]);
    assert_eq!(out[0].window, WindowHandle::new(1));
    assert_eq!(out[1].window, WindowHandle::new(2));
}

#[test]
fn empty_query_keeps_all_entries_in_order_substring() {
    let out = rank_substring(entries(&["Alpha", "Beta", "Gamma"]), "");
    assert_eq!(names(&out), vec!["Alpha", "Beta", "Gamma"]);
    assert!(out.iter().all(|e| e.score.is_some()));
}

#[test]
fn empty_query_keeps_all_entries_in_order_fuzzy() {
    let out = rank_fuzzy(entries(&["Alpha", "Beta", "Gamma"]), "");
    assert_eq!(names(&out), vec!["Alpha", "Beta", "Gamma"]);
    assert!(out.iter().all(|e| e.score == Some(0)));
}

#[test]
fn fuzzy_matching_is_case_insensitive() {
    let out = rank_fuzzy(
        entries(&["Mozilla Firefox", "Windows Terminal"]),
        "TERM",
    );
    assert_eq!(names(&out), vec!["Windows Terminal"]);
}

#[test]
fn fuzzy_drops_entries_without_a_subsequence_match() {
    let out = rank_fuzzy(entries(&["Alpha", "Beta"]), "xyz");
    assert!(out.is_empty());
}

#[test]
fn fuzzy_ranks_better_matches_first() {
    // "code" is a whole word of the first title and only a scattered
    // subsequence of the second; the contiguous word must rank first even
    // though enumeration order says otherwise.
    let out = rank_fuzzy(
        entries(&["a composite demo", "Visual Studio Code"]),
        "code",
    );
    assert_eq!(out.len(), 2);
    assert_eq!(out[0].name, "Visual Studio Code");
    assert_eq!(out[1].name, "a composite demo");
    assert!(out[0].score.unwrap() > out[1].score.unwrap());
}

#[test]
fn substring_queries_are_trimmed_and_case_folded() {
    assert!(substring_match("Windows Terminal", "  TERM  "));
    assert!(substring_match("wINDOWS tERMINAL", "terminal"));
    assert!(substring_match("Alpha", "\t alpha \r\n"));
    assert!(!substring_match("Alpha", "beta"));
    // Trimming removes surrounding whitespace only, never inner whitespace.
    assert!(substring_match("Visual Studio", " al st"));
    assert!(!substring_match("VisualStudio", "al st"));
}

#[test]
fn substring_match_is_not_a_whole_title_comparison() {
    assert!(substring_match("Windows Terminal", "erm"));
    assert!(!substring_match("erm", "Windows Terminal"));
}

#[test]
fn scores_are_recomputed_per_query() {
    let stale = rank_fuzzy(entries(&["Alpha", "Beta"]), "alp");
    assert_eq!(names(&stale), vec!["Alpha"]);
    let rescored = rank_fuzzy(stale, "bet");
    assert!(rescored.is_empty());
}
