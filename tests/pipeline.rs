use paneboard::display::{PixelRect, VisibleFrame};
use paneboard::form::Form;
use paneboard::model::Platform;
use paneboard::mru::WindowIdentity;
use paneboard::mutator::{
    commit_plan, display_index_for_rect, geometry_matches, on_tiling_error, plan_display_move, RetryDecision,
    RetryRegistry,
};
use paneboard::pipeline::{decide, starts_switcher_session, EventKind, Modifiers, PipelineState, TapAction, TapEvent};
use paneboard::session::{AltTabSession, ClipboardAction, ClipboardSession, SwitcherAction};

fn mods(control: bool, shift: bool, command: bool, option: bool) -> Modifiers {
    Modifiers { control, shift, command, option }
}

fn ev(kind: EventKind, keycode: u16, m: Modifiers) -> TapEvent {
    TapEvent { kind, keycode, mods: m, autorepeat: false }
}

fn state() -> PipelineState {
    PipelineState { switcher: AltTabSession::new(), clipboard: ClipboardSession::new(), layout_chord_held: false }
}

fn form() -> Form {
    Form::from_config(paneboard::config::get_default_config(), Platform::MacOS).unwrap()
}

#[test]
fn switcher_protocol_commits_highlight_on_release() {
    let f = form();
    let mut s = state();
    let tab = ev(EventKind::KeyDown, 48, mods(false, false, true, false));
    assert!(starts_switcher_session(&s, &tab));
    let d = decide(&mut s, &tab, &f, 3, 0);
    assert!(d.swallow);
    assert!(matches!(d.action, TapAction::Switcher(SwitcherAction::Show(1))));
    assert!(!starts_switcher_session(&s, &tab));
    let d = decide(&mut s, &tab, &f, 3, 0);
    assert!(matches!(d.action, TapAction::Switcher(SwitcherAction::Highlight(2))));
    let up = ev(EventKind::KeyUp, 48, mods(false, false, true, false));
    assert!(decide(&mut s, &up, &f, 3, 0).swallow);
    let release = ev(EventKind::FlagsChanged, 55, mods(false, false, false, false));
    let d = decide(&mut s, &release, &f, 3, 0);
    assert!(matches!(d.action, TapAction::CommitSwitcher(Some(2))));
    assert!(!d.swallow);
    assert!(!s.switcher.active);
}

#[test]
fn click_cancels_switcher_and_repeat_is_discarded() {
    let f = form();
    let mut s = state();
    let tab = ev(EventKind::KeyDown, 48, mods(false, false, true, false));
    decide(&mut s, &tab, &f, 2, 0);
    let mut repeat = tab;
    repeat.autorepeat = true;
    let d = decide(&mut s, &repeat, &f, 2, 0);
    assert!(d.swallow && matches!(d.action, TapAction::PassOn));
    let click = ev(EventKind::MouseDown, 0, mods(false, false, true, false));
    let d = decide(&mut s, &click, &f, 2, 0);
    assert!(d.swallow && matches!(d.action, TapAction::CancelSwitcher));
    assert_eq!(s.switcher, AltTabSession::new());
}

#[test]
fn clipboard_chords() {
    let f = form();
    let mut s = state();
    let d = decide(&mut s, &ev(EventKind::KeyDown, 9, mods(true, true, false, false)), &f, 0, 2);
    assert!(d.swallow && matches!(d.action, TapAction::ShowClipboard));
    let d = decide(&mut s, &ev(EventKind::KeyDown, 8, mods(true, false, false, false)), &f, 0, 2);
    assert!(!d.swallow && matches!(d.action, TapAction::MirrorClipboardChord { keycode: 8, down: true }));
    let d = decide(&mut s, &ev(EventKind::KeyUp, 7, mods(true, false, false, false)), &f, 0, 2);
    assert!(!d.swallow && matches!(d.action, TapAction::MirrorClipboardChord { keycode: 7, down: false }));
    s.clipboard.open(2);
    let d = decide(&mut s, &ev(EventKind::KeyDown, 125, mods(false, false, false, false)), &f, 0, 2);
    assert!(d.swallow && matches!(d.action, TapAction::Clipboard(ClipboardAction::Highlight(1))));
    let d = decide(&mut s, &ev(EventKind::KeyUp, 125, mods(false, false, false, false)), &f, 0, 2);
    assert!(!d.swallow);
    let d = decide(&mut s, &ev(EventKind::KeyDown, 36, mods(false, false, false, false)), &f, 0, 2);
    assert!(matches!(d.action, TapAction::Clipboard(ClipboardAction::Paste(1))));
}

#[test]
fn layout_chord_tiles_and_release_resets() {
    let f = form();
    let mut s = state();
    let chord = mods(true, true, false, true);
    let d = decide(&mut s, &ev(EventKind::FlagsChanged, 58, chord), &f, 0, 0);
    assert!(!d.reset_layout_session);
    let d = decide(&mut s, &ev(EventKind::KeyDown, 0x73, chord), &f, 0, 0);
    assert!(d.swallow && matches!(d.action, TapAction::Tile("home")));
    let d = decide(&mut s, &ev(EventKind::KeyDown, 0x79, chord), &f, 0, 0);
    assert!(d.swallow && matches!(d.action, TapAction::MoveDisplay("pagedown")));
    let d = decide(&mut s, &ev(EventKind::KeyDown, 0x00, chord), &f, 0, 0);
    assert!(!d.swallow && matches!(d.action, TapAction::PassOn));
    let d = decide(&mut s, &ev(EventKind::KeyDown, 0x73, mods(true, true, true, true)), &f, 0, 0);
    assert!(!d.swallow);
    let d = decide(&mut s, &ev(EventKind::FlagsChanged, 58, mods(true, true, false, false)), &f, 0, 0);
    assert!(d.reset_layout_session);
}

#[test]
fn display_index_and_move_plan() {
    let frames = vec![
        VisibleFrame { min_x: 0, min_y: 25, width: 1920, height: 1055 },
        VisibleFrame { min_x: 1920, min_y: 0, width: 2560, height: 1440 },
    ];
    let w = PixelRect { x: 100, y: 100, width: 800, height: 600 };
    assert_eq!(display_index_for_rect(&frames, &w), 0);
    let far = PixelRect { x: 3000, y: 200, width: 400, height: 400 };
    assert_eq!(display_index_for_rect(&frames, &far), 1);
    let lost = PixelRect { x: -5000, y: 0, width: 10, height: 10 };
    assert_eq!(display_index_for_rect(&frames, &lost), 0);
    let f = form();
    let moved = plan_display_move(&f, "pagedown", &frames, &w).unwrap();
    assert_eq!(moved, PixelRect { x: 2020, y: 75, width: 800, height: 600 });
    assert!(plan_display_move(&f, "home", &frames, &w).is_none());
    assert!(plan_display_move(&f, "pagedown", &vec![frames[0]], &w).is_none());
}

#[test]
fn commit_plans_and_retries() {
    let t = WindowIdentity { pid: 5, window_id: 50 };
    let p = commit_plan(t, Some(4), Some(50));
    assert!(p.activate_app && p.focus_window);
    let p = commit_plan(t, Some(5), Some(50));
    assert!(!p.activate_app && !p.focus_window);
    let p = commit_plan(t, Some(5), Some(51));
    assert!(!p.activate_app && p.focus_window);
    let p = commit_plan(WindowIdentity { pid: 5, window_id: 0 }, None, None);
    assert!(p.activate_app && !p.focus_window);
    assert_eq!(on_tiling_error("ax_not_ready_retry_needed", 0), RetryDecision::WaitForFocus);
    assert_eq!(on_tiling_error("ax_not_ready_retry_needed", 1), RetryDecision::Fail);
    assert_eq!(on_tiling_error("no pane for key", 0), RetryDecision::Fail);
    assert!(geometry_matches(&PixelRect { x: 0, y: 0, width: 10, height: 10 }, &PixelRect { x: 1, y: -1, width: 9, height: 11 }));
    assert!(!geometry_matches(&PixelRect { x: 0, y: 0, width: 10, height: 10 }, &PixelRect { x: 2, y: 0, width: 10, height: 10 }));
    let mut r = RetryRegistry::new();
    assert!(r.begin(7));
    assert!(!r.begin(7));
    assert!(r.begin(8));
    r.finish(7);
    assert!(r.begin(7));
    assert_eq!(r.pids, vec![8, 7]);
}
