//! The keyboard and mouse event pipeline: what each tapped event does, in
//! the order the protocols are tried.
use vstd::prelude::*;
use crate::form::Form;
use crate::keymap::{keycode_to_xml_key, xml_key_of};
use crate::session::{
    AltTabSession, ClipboardAction, ClipboardSession, SwitcherAction, key_step, tab_action, tab_session,
};

verus! {

#[derive(Debug, Clone, Copy, PartialEq, Eq, Structural)]
pub enum EventKind {
    KeyDown,
    KeyUp,
    FlagsChanged,
    MouseDown,
    Other,
}

/// Modifier keys held during an event.
#[derive(Debug, Clone, Copy, PartialEq, Eq, Structural)]
pub struct Modifiers {
    pub control: bool,
    pub shift: bool,
    pub command: bool,
    pub option: bool,
}

/// A tapped event.
#[derive(Debug, Clone, Copy, PartialEq, Eq, Structural)]
pub struct TapEvent {
    pub kind: EventKind,
    pub keycode: u16,
    pub mods: Modifiers,
    pub autorepeat: bool,
}

/// Virtual key codes the pipeline reacts to.
pub const VK_TAB: u16 = 48;
pub const VK_C: u16 = 8;
pub const VK_X: u16 = 7;
pub const VK_V: u16 = 9;

/// What the caller does with an event.
#[derive(Debug, Clone, Copy)]
pub enum TapAction {
    /// Nothing beyond passing the event on or swallowing it.
    PassOn,
    /// The switcher session was cancelled by a click.
    CancelSwitcher,
    /// A key went to the clipboard overlay.
    Clipboard(ClipboardAction),
    /// Show the clipboard overlay.
    ShowClipboard,
    /// Post the Command variant of a Control clipboard chord.
    MirrorClipboardChord { keycode: u16, down: bool },
    /// The switcher modifier was released: commit this snapshot entry (if any) and hide the overlay.
    CommitSwitcher(Option<usize>),
    /// A switcher Tab press.
    Switcher(SwitcherAction),
    /// A layout chord for a key bound to a layout.
    Tile(&'static str),
    /// A layout chord for a key bound to a display move.
    MoveDisplay(&'static str),
}

/// The caller's instruction for one event.
#[derive(Debug, Clone, Copy)]
pub struct TapDecision {
    pub action: TapAction,
    /// Swallow the event instead of passing it on.
    pub swallow: bool,
    /// The layout chord was released: end the layout session.
    pub reset_layout_session: bool,
}

/// State the pipeline keeps between events.
#[derive(Debug, Clone, Copy, PartialEq, Eq, Structural)]
pub struct PipelineState {
    pub switcher: AltTabSession,
    pub clipboard: ClipboardSession,
    /// Control+Shift+Option was held at the last modifier change.
    pub layout_chord_held: bool,
}

pub open spec fn is_mouse_down(ev: TapEvent) -> bool {
    ev.kind == EventKind::MouseDown
}

pub open spec fn is_clipboard_key(k: u16) -> bool {
    k == VK_C || k == VK_X || k == VK_V
}

/// Control+Shift+V, with neither Command nor Option.
pub open spec fn shows_clipboard(ev: TapEvent) -> bool {
    ev.kind == EventKind::KeyDown && ev.mods.control && ev.mods.shift && !ev.mods.command && !ev.mods.option
        && ev.keycode == VK_V
}

/// Plain Control+C, X or V going down.
pub open spec fn mirrors_down(ev: TapEvent) -> bool {
    ev.kind == EventKind::KeyDown && ev.mods.control && !ev.mods.shift && !ev.mods.command && !ev.mods.option
        && is_clipboard_key(ev.keycode)
}

/// Control with C, X or V coming up.
pub open spec fn mirrors_up(ev: TapEvent) -> bool {
    ev.kind == EventKind::KeyUp && ev.mods.control && !ev.mods.command && !ev.mods.option && is_clipboard_key(
        ev.keycode,
    )
}

/// The switcher modifier let go while a session is active.
pub open spec fn releases_switcher(s: PipelineState, ev: TapEvent) -> bool {
    (ev.kind == EventKind::FlagsChanged || ev.kind == EventKind::KeyUp) && s.switcher.active && !ev.mods.command
}

/// Command+Tab going down (no Option or Control).
pub open spec fn is_switcher_tab(ev: TapEvent) -> bool {
    ev.kind == EventKind::KeyDown && ev.keycode == VK_TAB && ev.mods.command && !ev.mods.option && !ev.mods.control
}

/// The layout chord: Control+Shift+Option without Command.
pub open spec fn layout_chord(m: Modifiers) -> bool {
    m.control && m.shift && m.option && !m.command
}

pub open spec fn pass(action: TapAction) -> TapDecision {
    TapDecision { action, swallow: false, reset_layout_session: false }
}

pub open spec fn swallow(action: TapAction) -> TapDecision {
    TapDecision { action, swallow: true, reset_layout_session: false }
}

/// Whether a Tab press starts a switcher session; the caller then prunes
/// the MRU before taking the snapshot for the press.
pub fn starts_switcher_session(state: &PipelineState, ev: &TapEvent) -> (r: bool)
    ensures
        r == (is_switcher_tab(*ev) && !ev.autorepeat && !state.switcher.active && !state.clipboard.active
            && !(is_mouse_down(*ev))),
{
    ev.kind == EventKind::KeyDown && ev.keycode == VK_TAB && ev.mods.command && !ev.mods.option
        && !ev.mods.control && !ev.autorepeat && !state.switcher.active && !state.clipboard.active
}

/// Decides what one tapped event does. Protocols are tried in order: a
/// click cancels an active switcher session; an active clipboard overlay
/// takes every key; the clipboard chords; release of the switcher modifier
/// commits; Command+Tab drives the switcher (`snapshot_len` is the MRU
/// snapshot taken for this press); release of the layout chord ends the
/// layout session; finally a non-repeating key-down with the layout chord
/// held, on a key bound in the Form, tiles or moves the window.
pub fn decide(
    state: &mut PipelineState,
    ev: &TapEvent,
    form: &Form,
    snapshot_len: usize,
    history_len: usize,
) -> (r: TapDecision)
    requires
        old(state).switcher.wf(),
        old(state).clipboard.wf(),
    ensures
        final(state).switcher.wf(),
        final(state).clipboard.wf(),
        !(old(state).clipboard.active && ev.kind == EventKind::KeyDown) ==> final(state).clipboard == old(
            state,
        ).clipboard,
        ev.kind != EventKind::FlagsChanged ==> final(state).layout_chord_held == old(state).layout_chord_held,
        is_mouse_down(*ev) && old(state).switcher.active ==> r == swallow(TapAction::CancelSwitcher)
            && final(state).switcher == AltTabSession::idle(),
        !(is_mouse_down(*ev) && old(state).switcher.active) && old(state).clipboard.active ==> {
            &&& ev.kind == EventKind::KeyDown ==> r == swallow(
                TapAction::Clipboard(key_step(old(state).clipboard, ev.keycode, history_len).1),
            ) && final(state).clipboard == key_step(old(state).clipboard, ev.keycode, history_len).0
            &&& ev.kind != EventKind::KeyDown ==> r == pass(TapAction::PassOn)
            &&& final(state).switcher == old(state).switcher
        },
        !(is_mouse_down(*ev) && old(state).switcher.active) && !old(state).clipboard.active && shows_clipboard(*ev)
            ==> r == swallow(TapAction::ShowClipboard),
        !(is_mouse_down(*ev) && old(state).switcher.active) && !old(state).clipboard.active && mirrors_down(*ev)
            ==> r == pass(TapAction::MirrorClipboardChord { keycode: ev.keycode, down: true }),
        !(is_mouse_down(*ev) && old(state).switcher.active) && !old(state).clipboard.active && mirrors_up(*ev)
            ==> r == pass(TapAction::MirrorClipboardChord { keycode: ev.keycode, down: false }),
        !(is_mouse_down(*ev) && old(state).switcher.active) && !old(state).clipboard.active && !shows_clipboard(
            *ev,
        ) && !mirrors_down(*ev) && !mirrors_up(*ev) && releases_switcher(*old(state), *ev) ==> {
            &&& r.action == TapAction::CommitSwitcher(
                match old(state).switcher.highlight_index {
                    Some(h) => if h < snapshot_len {
                        Some(h)
                    } else {
                        None
                    },
                    None => None,
                },
            )
            &&& !r.swallow
            &&& final(state).switcher == AltTabSession::idle()
        },
        !(is_mouse_down(*ev) && old(state).switcher.active) && !old(state).clipboard.active && !shows_clipboard(
            *ev,
        ) && !mirrors_down(*ev) && !mirrors_up(*ev) && !releases_switcher(*old(state), *ev) && is_switcher_tab(*ev)
            ==> r.swallow && (ev.autorepeat ==> r.action == TapAction::PassOn
            && final(state).switcher == old(state).switcher) && (!ev.autorepeat ==> r == swallow(TapAction::Switcher(tab_action(old(state).switcher, snapshot_len, ev.mods.shift)))
            && final(state).switcher == tab_session(old(state).switcher, snapshot_len, ev.mods.shift)),
        r.action matches TapAction::Tile(k) ==> layout_chord(ev.mods) && ev.kind == EventKind::KeyDown
            && !ev.autorepeat && xml_key_of(ev.keycode) == Some(k@) && form.binding(k@) is Some && r.swallow,
        r.action matches TapAction::MoveDisplay(k) ==> layout_chord(ev.mods) && ev.kind == EventKind::KeyDown
            && !ev.autorepeat && xml_key_of(ev.keycode) == Some(k@) && form.binding(k@) is None
            && form.move_target(k@) is Some && r.swallow,
        !old(state).clipboard.active && ev.kind == EventKind::KeyDown && !ev.autorepeat && layout_chord(ev.mods)
            ==> match xml_key_of(ev.keycode) {
            Some(kv) => if form.binding(kv) is Some {
                r.action matches TapAction::Tile(k) && k@ == kv && r.swallow && !r.reset_layout_session
            } else if form.move_target(kv) is Some {
                r.action matches TapAction::MoveDisplay(k) && k@ == kv && r.swallow && !r.reset_layout_session
            } else {
                r == pass(TapAction::PassOn)
            },
            None => r == pass(TapAction::PassOn),
        },
        r.reset_layout_session ==> ev.kind == EventKind::FlagsChanged && old(state).layout_chord_held
            && !(ev.mods.control && ev.mods.shift && ev.mods.option),
        ev.kind == EventKind::FlagsChanged && !(is_mouse_down(*ev) && old(state).switcher.active)
            && !old(state).clipboard.active && !releases_switcher(*old(state), *ev)
            ==> final(state).layout_chord_held == (ev.mods.control && ev.mods.shift && ev.mods.option)
            && r.reset_layout_session == (old(state).layout_chord_held && !(ev.mods.control && ev.mods.shift
            && ev.mods.option)),
{
    let m = ev.mods;
    if ev.kind == EventKind::MouseDown && state.switcher.active {
        state.switcher.cancel();
        return TapDecision { action: TapAction::CancelSwitcher, swallow: true, reset_layout_session: false };
    }
    if state.clipboard.active {
        if ev.kind == EventKind::KeyDown {
            let a = state.clipboard.on_key(ev.keycode, history_len);
            return TapDecision { action: TapAction::Clipboard(a), swallow: true, reset_layout_session: false };
        }
        return TapDecision { action: TapAction::PassOn, swallow: false, reset_layout_session: false };
    }
    let clip_key = ev.keycode == VK_C || ev.keycode == VK_X || ev.keycode == VK_V;
    if ev.kind == EventKind::KeyDown && m.control && m.shift && !m.command && !m.option && ev.keycode == VK_V {
        return TapDecision { action: TapAction::ShowClipboard, swallow: true, reset_layout_session: false };
    }
    if ev.kind == EventKind::KeyDown && m.control && !m.shift && !m.command && !m.option && clip_key {
        return TapDecision {
            action: TapAction::MirrorClipboardChord { keycode: ev.keycode, down: true },
            swallow: false,
            reset_layout_session: false,
        };
    }
    if ev.kind == EventKind::KeyUp && m.control && !m.command && !m.option && clip_key {
        return TapDecision {
            action: TapAction::MirrorClipboardChord { keycode: ev.keycode, down: false },
            swallow: false,
            reset_layout_session: false,
        };
    }
    if (ev.kind == EventKind::FlagsChanged || ev.kind == EventKind::KeyUp) && state.switcher.active && !m.command {
        let target = state.switcher.on_release(snapshot_len);
        return TapDecision { action: TapAction::CommitSwitcher(target), swallow: false, reset_layout_session: false };
    }
    if ev.kind == EventKind::KeyUp && ev.keycode == VK_TAB && state.switcher.active {
        return TapDecision { action: TapAction::PassOn, swallow: true, reset_layout_session: false };
    }
    if ev.kind == EventKind::KeyDown && ev.keycode == VK_TAB && m.command && !m.option && !m.control {
        if ev.autorepeat {
            return TapDecision { action: TapAction::PassOn, swallow: true, reset_layout_session: false };
        }
        let a = state.switcher.on_tab(snapshot_len, m.shift);
        return TapDecision { action: TapAction::Switcher(a), swallow: true, reset_layout_session: false };
    }
    let mut reset = false;
    if ev.kind == EventKind::FlagsChanged {
        let held = m.control && m.shift && m.option;
        reset = state.layout_chord_held && !held;
        state.layout_chord_held = held;
    }
    if ev.kind != EventKind::KeyDown || ev.autorepeat {
        return TapDecision { action: TapAction::PassOn, swallow: false, reset_layout_session: reset };
    }
    if !(m.control && m.shift && m.option) || m.command {
        return TapDecision { action: TapAction::PassOn, swallow: false, reset_layout_session: reset };
    }
    match keycode_to_xml_key(ev.keycode) {
        None => TapDecision { action: TapAction::PassOn, swallow: false, reset_layout_session: reset },
        Some(key) => {
            if form.has_layout_action(key) {
                TapDecision { action: TapAction::Tile(key), swallow: true, reset_layout_session: reset }
            } else if form.has_display_move(key) {
                TapDecision { action: TapAction::MoveDisplay(key), swallow: true, reset_layout_session: reset }
            } else {
                TapDecision { action: TapAction::PassOn, swallow: false, reset_layout_session: reset }
            }
        },
    }
}

} // verus!
