use paneboard::form::execute_move;
use paneboard::model::DisplayMoveTarget;
use paneboard::mru::{
    is_listed_window,
    ActivationState, EnumeratedWindow, FocusedWindowInfo, MruStack, MruWindowEntry, RunningApp, WindowIdentity,
    prepopulate_mru,
};
use paneboard::session::{AltTabSession, ClipboardAction, ClipboardHistory, ClipboardSession, SwitcherAction};
use std::collections::HashSet;

fn entry(pid: u32, window_id: u32) -> MruWindowEntry {
    MruWindowEntry {
        identity: WindowIdentity { pid, window_id },
        bundle_id: format!("app{}", pid),
        title: format!("w{}", window_id),
        activation_state: ActivationState::Known,
    }
}

fn focus(window_id: u32) -> FocusedWindowInfo {
    FocusedWindowInfo { window_id, title: format!("w{}", window_id), role: Some("AXWindow".to_string()) }
}

fn assert_unique(m: &MruStack) {
    let ids: HashSet<WindowIdentity> = m.entries.iter().map(|e| e.identity).collect();
    assert_eq!(ids.len(), m.entries.len());
}

#[test]
fn switcher_commit_after_two_tabs() {
    let snapshot = vec![entry(1, 10), entry(2, 20), entry(3, 30)];
    let mut s = AltTabSession::new();
    assert_eq!(s.on_tab(snapshot.len(), false), SwitcherAction::Show(1));
    assert_eq!(s.on_tab(snapshot.len(), false), SwitcherAction::Highlight(2));
    let target = s.commit_target(&snapshot).expect("a target");
    assert_eq!(snapshot[target].identity, WindowIdentity { pid: 3, window_id: 30 });
    assert_eq!(s, AltTabSession { active: false, popup_shown: false, highlight_index: None });
}

#[test]
fn switcher_shift_tab_steps_back() {
    let snapshot = vec![entry(1, 10), entry(2, 20), entry(3, 30)];
    let mut s = AltTabSession::new();
    s.on_tab(snapshot.len(), false);
    assert_eq!(s.on_tab(snapshot.len(), true), SwitcherAction::Highlight(0));
    let target = s.commit_target(&snapshot).unwrap();
    assert_eq!(snapshot[target].identity.pid, 1);
}

#[test]
fn switcher_edge_cases() {
    let mut s = AltTabSession::new();
    assert_eq!(s.on_tab(0, false), SwitcherAction::NoWindows);
    assert!(!s.active);
    assert_eq!(s.on_tab(1, false), SwitcherAction::Show(0));
    assert_eq!(s.on_tab(1, false), SwitcherAction::Highlight(0));
    s.cancel();
    assert_eq!(s.on_release(1), None);
    let mut t = AltTabSession::new();
    assert_eq!(t.on_tab(4, true), SwitcherAction::Show(3));
    assert_eq!(t.on_tab(4, false), SwitcherAction::Highlight(0));
    assert_eq!(t.on_release(0), None);
}

#[test]
fn clipboard_suppresses_repeats() {
    let mut h = ClipboardHistory::new();
    assert!(h.push_text("alpha"));
    assert!(!h.push_text("alpha"));
    assert_eq!(h.entries.len(), 1);
    assert!(h.push_text("beta"));
    assert_eq!(h.entries, vec!["beta".to_string(), "alpha".to_string()]);
    assert!(!h.push_text(""));
    assert_eq!(h.entries.len(), 2);
}

#[test]
fn clipboard_history_is_capped() {
    let mut h = ClipboardHistory::new();
    for i in 0..60 {
        h.push_text(&format!("item{}", i));
    }
    assert_eq!(h.entries.len(), 50);
    assert_eq!(h.entries[0], "item59");
    assert_eq!(h.entries[49], "item10");
}

#[test]
fn clipboard_navigation() {
    let mut s = ClipboardSession::new();
    s.open(0);
    assert!(!s.active);
    s.open(3);
    assert_eq!(s.highlight_index, Some(0));
    assert_eq!(s.on_key(126, 3), ClipboardAction::Ignore);
    assert_eq!(s.on_key(125, 3), ClipboardAction::Highlight(1));
    assert_eq!(s.on_key(125, 3), ClipboardAction::Highlight(2));
    assert_eq!(s.on_key(125, 3), ClipboardAction::Ignore);
    assert_eq!(s.on_key(0, 3), ClipboardAction::Ignore);
    assert_eq!(s.on_key(126, 3), ClipboardAction::Highlight(1));
    assert_eq!(s.on_key(36, 3), ClipboardAction::Paste(1));
    assert!(!s.active);
    s.open(2);
    assert_eq!(s.on_key(53, 2), ClipboardAction::Close);
    assert_eq!(s, ClipboardSession { active: false, highlight_index: None });
}

#[test]
fn mru_focus_update_keeps_entries_unique() {
    let mut m = MruStack::new();
    m.add_app_to_mru_as_guess(7, "seven", "Seven");
    m.add_enumerated_window_to_mru(8, "eight", &EnumeratedWindow { window_id: 80, title: "t".to_string() });
    assert!(m.update_mru_with_focus(7, "seven", &focus(70)));
    assert_eq!(m.entries[0].identity, WindowIdentity { pid: 7, window_id: 70 });
    assert_eq!(m.entries.len(), 2);
    assert!(m.update_mru_with_focus(8, "eight", &focus(80)));
    assert!(m.update_mru_with_focus(7, "seven", &focus(70)));
    assert_eq!(m.entries.len(), 2);
    assert_eq!(m.entries[0].identity.pid, 7);
    assert_eq!(m.entries[0].activation_state, ActivationState::Known);
    assert_unique(&m);
    assert!(!m.update_mru_with_focus(7, "seven", &focus(0)));
    let dialog = FocusedWindowInfo { window_id: 71, title: "d".to_string(), role: Some("AXSheet".to_string()) };
    assert!(!m.update_mru_with_focus(7, "seven", &dialog));
    assert_eq!(m.entries.len(), 2);
}

#[test]
fn mru_prune_and_remove() {
    let mut m = MruStack::new();
    m.add_app_to_mru_as_guess(1, "one", "One");
    m.add_enumerated_window_to_mru(2, "two", &EnumeratedWindow { window_id: 20, title: "a".to_string() });
    m.add_enumerated_window_to_mru(2, "two", &EnumeratedWindow { window_id: 21, title: "b".to_string() });
    let pruned = m.prune_stale_mru_entries(&vec![WindowIdentity { pid: 2, window_id: 21 }]);
    assert_eq!(pruned, 1);
    assert_eq!(m.entries.len(), 2);
    m.remove_app(2);
    assert_eq!(m.entries.len(), 1);
    assert_eq!(m.entries[0].identity, WindowIdentity { pid: 1, window_id: 0 });
    assert_eq!(m.get_mru_snapshot().len(), 1);
}

#[test]
fn mru_prepopulation_represents_every_app() {
    let apps = vec![
        RunningApp { pid: 1, bundle_id: "a".to_string(), name: "A".to_string(), windows: vec![] },
        RunningApp {
            pid: 2,
            bundle_id: "b".to_string(),
            name: "B".to_string(),
            windows: vec![
                EnumeratedWindow { window_id: 20, title: "x".to_string() },
                EnumeratedWindow { window_id: 21, title: "y".to_string() },
            ],
        },
        RunningApp { pid: 3, bundle_id: "c".to_string(), name: "C".to_string(), windows: vec![] },
    ];
    let mut m = MruStack::new();
    prepopulate_mru(&mut m, &apps, Some(2), Some(&focus(21)));
    for app in &apps {
        assert!(m.entries.iter().any(|e| e.identity.pid == app.pid));
    }
    assert_eq!(m.entries[0].identity, WindowIdentity { pid: 2, window_id: 21 });
    assert_eq!(m.entries[0].activation_state, ActivationState::Known);
    assert_eq!(m.entries.len(), 4);
    assert_unique(&m);
}

#[test]
fn display_move_wraps() {
    assert_eq!(execute_move(DisplayMoveTarget::Next { wrap: true }, 2, 3), Some(0));
    assert_eq!(execute_move(DisplayMoveTarget::Next { wrap: true }, 0, 3), Some(1));
    assert_eq!(execute_move(DisplayMoveTarget::Next { wrap: false }, 2, 3), None);
    assert_eq!(execute_move(DisplayMoveTarget::Prev { wrap: true }, 0, 3), Some(2));
    assert_eq!(execute_move(DisplayMoveTarget::Prev { wrap: false }, 0, 3), None);
    assert_eq!(execute_move(DisplayMoveTarget::Prev { wrap: false }, 2, 3), Some(1));
    assert_eq!(execute_move(DisplayMoveTarget::Index(1), 0, 2), Some(1));
    assert_eq!(execute_move(DisplayMoveTarget::Index(2), 0, 2), None);
}

#[test]
fn sessions_start_idle_by_default() {
    assert_eq!(AltTabSession::default(), AltTabSession { active: false, popup_shown: false, highlight_index: None });
    assert_eq!(ClipboardSession::default(), ClipboardSession { active: false, highlight_index: None });
}

#[test]
fn enumeration_keeps_standard_windows_only() {
    assert!(is_listed_window(&Some("AXWindow".to_string()), 5));
    assert!(!is_listed_window(&Some("AXWindow".to_string()), 0));
    assert!(!is_listed_window(&Some("AXSheet".to_string()), 5));
    assert!(!is_listed_window(&None, 5));
}

#[test]
fn untitled_windows_are_named_by_id() {
    assert_eq!(paneboard::mru::window_title(Some("Inbox"), 7), "Inbox");
    assert_eq!(paneboard::mru::window_title(Some(""), 42), "<win:42>");
    assert_eq!(paneboard::mru::window_title(None, 0), "<win:0>");
}
