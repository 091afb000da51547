//! The modal sessions: the window switcher over MRU snapshots and the
//! clipboard history overlay.
use vstd::prelude::*;
use crate::mru::MruWindowEntry;
use crate::text::str_eq;

verus! {

/// What the overlay should do after a switcher event.
#[derive(Debug, Clone, Copy, PartialEq, Eq, Structural)]
pub enum SwitcherAction {
    /// Show the overlay with this entry highlighted.
    Show(usize),
    /// Move the overlay's highlight.
    Highlight(usize),
    /// There is nothing to switch to; the session is over.
    NoWindows,
}

/// The window switcher's state between key events.
#[derive(Debug, Clone, Copy, PartialEq, Eq, Structural)]
pub struct AltTabSession {
    pub active: bool,
    pub popup_shown: bool,
    pub highlight_index: Option<usize>,
}

/// The highlight a Tab press moves to from `cur` among `len` entries.
pub open spec fn stepped(cur: usize, len: usize, backward: bool) -> usize
    recommends
        len > 0,
{
    let c = cur % len;
    if backward {
        if c == 0 { (len - 1) as usize } else { (c - 1) as usize }
    } else {
        ((c + 1) % (len as int)) as usize
    }
}

/// The highlight of the first Tab press of a session.
pub open spec fn first_highlight(len: usize, backward: bool) -> usize {
    if backward {
        (len - 1) as usize
    } else if len > 1 {
        1
    } else {
        0
    }
}

/// The session after a Tab press over a snapshot of `len` entries.
pub open spec fn tab_session(s: AltTabSession, len: usize, shift: bool) -> AltTabSession {
    if len == 0 {
        AltTabSession::idle()
    } else if !s.popup_shown {
        AltTabSession { active: true, popup_shown: true, highlight_index: Some(first_highlight(len, shift)) }
    } else {
        let cur = match s.highlight_index {
            Some(h) => h,
            None => 0,
        };
        AltTabSession { active: true, popup_shown: true, highlight_index: Some(stepped(cur, len, shift)) }
    }
}

/// What the overlay does after a Tab press over a snapshot of `len` entries.
pub open spec fn tab_action(s: AltTabSession, len: usize, shift: bool) -> SwitcherAction {
    if len == 0 {
        SwitcherAction::NoWindows
    } else if !s.popup_shown {
        SwitcherAction::Show(first_highlight(len, shift))
    } else {
        let cur = match s.highlight_index {
            Some(h) => h,
            None => 0,
        };
        SwitcherAction::Highlight(stepped(cur, len, shift))
    }
}

/// The index a release commits from session `s` over a snapshot of `len` entries.
pub open spec fn release_target(s: AltTabSession, len: usize) -> Option<usize> {
    match s.highlight_index {
        Some(h) => if s.active && h < len {
            Some(h)
        } else {
            None
        },
        None => None,
    }
}

/// Over a snapshot of three entries, from an idle session: two Tab presses
/// then release commit entry 2; Tab then Shift+Tab then release commit entry 0.
pub proof fn lemma_switcher_two_presses()
    ensures
        release_target(tab_session(tab_session(AltTabSession::idle(), 3, false), 3, false), 3) == Some(2usize),
        release_target(tab_session(tab_session(AltTabSession::idle(), 3, false), 3, true), 3) == Some(0usize),
{
    assert(1usize % 3usize == 1);
    assert((2int % 3int) == 2);
}

impl AltTabSession {
    /// When inactive, nothing is shown or highlighted.
    pub open spec fn wf(self) -> bool {
        !self.active ==> self.highlight_index is None && !self.popup_shown
    }

    pub open spec fn idle() -> AltTabSession {
        AltTabSession { active: false, popup_shown: false, highlight_index: None }
    }

    pub fn new() -> (r: AltTabSession)
        ensures
            r == Self::idle(),
            r.wf(),
    {
        AltTabSession { active: false, popup_shown: false, highlight_index: None }
    }

    /// A Tab press (not auto-repeat) with the switcher modifier held, over a
    /// snapshot of `len` entries taken for this press. The first press of a
    /// session highlights entry 1 (0 when there is one entry; the last with
    /// Shift); later presses step forward (backward with Shift) modulo `len`.
    /// An empty snapshot ends the session.
    pub fn on_tab(&mut self, len: usize, shift: bool) -> (r: SwitcherAction)
        requires
            old(self).wf(),
        ensures
            final(self).wf(),
            len == 0 ==> r == SwitcherAction::NoWindows && *final(self) == Self::idle(),
            len > 0 && !old(self).popup_shown ==> r == SwitcherAction::Show(first_highlight(len, shift))
                && *final(self) == (AltTabSession {
                active: true,
                popup_shown: true,
                highlight_index: Some(first_highlight(len, shift)),
            }),
            len > 0 && old(self).popup_shown ==> {
                let cur = match old(self).highlight_index {
                    Some(h) => h,
                    None => 0,
                };
                &&& r == SwitcherAction::Highlight(stepped(cur, len, shift))
                &&& *final(self) == (AltTabSession {
                    active: true,
                    popup_shown: true,
                    highlight_index: Some(stepped(cur, len, shift)),
                })
            },
            r matches SwitcherAction::Show(i) ==> i < len,
            r matches SwitcherAction::Highlight(i) ==> i < len,
            *final(self) == tab_session(*old(self), len, shift),
            r == tab_action(*old(self), len, shift),
    {
        if len == 0 {
            self.active = false;
            self.popup_shown = false;
            self.highlight_index = None;
            return SwitcherAction::NoWindows;
        }
        self.active = true;
        if !self.popup_shown {
            let first = if shift {
                len - 1
            } else if len > 1 {
                1
            } else {
                0
            };
            self.popup_shown = true;
            self.highlight_index = Some(first);
            return SwitcherAction::Show(first);
        }
        let cur = match self.highlight_index {
            Some(h) => h,
            None => 0,
        };
        let c = cur % len;
        let next = if shift {
            if c == 0 {
                len - 1
            } else {
                c - 1
            }
        } else {
            (c + 1) % len
        };
        self.highlight_index = Some(next);
        SwitcherAction::Highlight(next)
    }

    /// The switcher modifier was released: the session ends, and the entry
    /// to commit is the highlighted one where it is within the snapshot.
    pub fn on_release(&mut self, len: usize) -> (r: Option<usize>)
        requires
            old(self).wf(),
        ensures
            *final(self) == Self::idle(),
            r == release_target(*old(self), len),
    {
        let r = match self.highlight_index {
            Some(h) => if self.active && h < len {
                Some(h)
            } else {
                None
            },
            None => None,
        };
        self.active = false;
        self.popup_shown = false;
        self.highlight_index = None;
        r
    }

    /// A mouse button went down: the session is dropped, nothing committed.
    pub fn cancel(&mut self)
        ensures
            *final(self) == Self::idle(),
    {
        self.active = false;
        self.popup_shown = false;
        self.highlight_index = None;
    }

    /// The entry a release commits: the snapshot's entry at the highlight.
    pub fn commit_target(&mut self, snapshot: &Vec<MruWindowEntry>) -> (r: Option<usize>)
        requires
            old(self).wf(),
        ensures
            *final(self) == Self::idle(),
            r matches Some(i) ==> old(self).highlight_index == Some(i) && i < snapshot@.len(),
            old(self).active ==> match old(self).highlight_index {
                Some(h) => h < snapshot@.len() ==> r == Some(h),
                None => r is None,
            },
    {
        self.on_release(snapshot.len())
    }
}

impl Default for AltTabSession {
    fn default() -> (r: AltTabSession)
        ensures
            r == AltTabSession::idle(),
    {
        AltTabSession::new()
    }
}

/// The history keeps at most this many entries.
pub const CLIPBOARD_CAP: usize = 50;

/// Captured clipboard strings, newest first.
#[derive(Debug)]
pub struct ClipboardHistory {
    pub entries: Vec<String>,
}

/// The history after `text` enters the clipboard: empty text is not
/// recorded, nor a repeat of the newest entry; otherwise it goes in front
/// and the history is cut to its cap.
pub open spec fn pushed(h: Seq<Seq<char>>, text: Seq<char>) -> Seq<Seq<char>> {
    if text.len() == 0 || (h.len() > 0 && h[0] == text) {
        h
    } else {
        let n = seq![text] + h;
        if n.len() > CLIPBOARD_CAP { n.subrange(0, CLIPBOARD_CAP as int) } else { n }
    }
}

pub open spec fn views(s: Seq<String>) -> Seq<Seq<char>> {
    s.map_values(|e: String| e@)
}

impl ClipboardHistory {
    pub open spec fn view(&self) -> Seq<Seq<char>> {
        views(self.entries@)
    }

    pub open spec fn wf(&self) -> bool {
        self.entries@.len() <= CLIPBOARD_CAP
    }

    pub fn new() -> (r: ClipboardHistory)
        ensures
            r.view() == Seq::<Seq<char>>::empty(),
            r.wf(),
    {
        let r = ClipboardHistory { entries: Vec::new() };
        assert(r.view() =~= Seq::<Seq<char>>::empty());
        r
    }

    /// Records `text`, newest first; returns whether it was recorded.
    pub fn push_text(&mut self, text: &str) -> (r: bool)
        requires
            old(self).wf(),
        ensures
            final(self).wf(),
            final(self).view() == pushed(old(self).view(), text@),
            r == (final(self).view() != old(self).view() || (text@.len() > 0 && !(old(self).view().len()
                > 0 && old(self).view()[0] == text@))),
    {
        if text.unicode_len() == 0 {
            return false;
        }
        if self.entries.len() > 0 && str_eq(self.entries[0].as_str(), text) {
            return false;
        }
        let ghost before = self.entries@;
        self.entries.insert(0, String::from_str(text));
        if self.entries.len() > CLIPBOARD_CAP {
            self.entries.truncate(CLIPBOARD_CAP);
        }
        proof {
            let n = seq![text@] + views(before);
            if before.len() + 1 > CLIPBOARD_CAP {
                assert(self.view() =~= n.subrange(0, CLIPBOARD_CAP as int));
            } else {
                assert(self.view() =~= n);
            }
        }
        true
    }

    /// The entry at `i`.
    pub fn get(&self, i: usize) -> (r: &String)
        requires
            i < self.entries@.len(),
        ensures
            r@ == self.view()[i as int],
    {
        &self.entries[i]
    }
}

/// What a key does while the clipboard overlay is up.
#[derive(Debug, Clone, Copy, PartialEq, Eq, Structural)]
pub enum ClipboardAction {
    /// Nothing to do.
    Ignore,
    /// Move the overlay's highlight.
    Highlight(usize),
    /// Put entry `i` on the clipboard and close the overlay.
    Paste(usize),
    /// Close the overlay.
    Close,
}

pub const KEY_UP: u16 = 126;
pub const KEY_DOWN: u16 = 125;
pub const KEY_ENTER: u16 = 36;
pub const KEY_ESCAPE: u16 = 53;

/// The clipboard overlay's state.
#[derive(Debug, Clone, Copy, PartialEq, Eq, Structural)]
pub struct ClipboardSession {
    pub active: bool,
    pub highlight_index: Option<usize>,
}

/// The clipboard session and action after key `keycode` over a history of
/// `len` entries.
pub open spec fn key_step(s: ClipboardSession, keycode: u16, len: usize) -> (ClipboardSession, ClipboardAction) {
    let cur: usize = match s.highlight_index {
        Some(h) => h,
        None => 0,
    };
    if len == 0 {
        (s, ClipboardAction::Ignore)
    } else if keycode == KEY_UP {
        if cur > 0 {
            (
                ClipboardSession { active: true, highlight_index: Some((cur - 1) as usize) },
                ClipboardAction::Highlight((cur - 1) as usize),
            )
        } else {
            (s, ClipboardAction::Ignore)
        }
    } else if keycode == KEY_DOWN {
        if cur + 1 < len {
            (
                ClipboardSession { active: true, highlight_index: Some((cur + 1) as usize) },
                ClipboardAction::Highlight((cur + 1) as usize),
            )
        } else {
            (s, ClipboardAction::Ignore)
        }
    } else if keycode == KEY_ENTER {
        (ClipboardSession::idle(), if cur < len { ClipboardAction::Paste(cur) } else { ClipboardAction::Close })
    } else if keycode == KEY_ESCAPE {
        (ClipboardSession::idle(), ClipboardAction::Close)
    } else {
        (s, ClipboardAction::Ignore)
    }
}

impl ClipboardSession {
    /// Active exactly when an entry is highlighted.
    pub open spec fn wf(self) -> bool {
        self.active == (self.highlight_index is Some)
    }

    pub open spec fn idle() -> ClipboardSession {
        ClipboardSession { active: false, highlight_index: None }
    }

    pub fn new() -> (r: ClipboardSession)
        ensures
            r == Self::idle(),
            r.wf(),
    {
        ClipboardSession { active: false, highlight_index: None }
    }

    /// Opens the overlay on a history of `len` entries: active with the
    /// first highlighted, or left idle when the history is empty.
    pub fn open(&mut self, len: usize)
        requires
            old(self).wf(),
        ensures
            final(self).wf(),
            len > 0 ==> *final(self) == (ClipboardSession { active: true, highlight_index: Some(0) }),
            len == 0 ==> *final(self) == *old(self),
    {
        if len > 0 {
            self.active = true;
            self.highlight_index = Some(0);
        }
    }

    /// A key went down while the overlay is up: arrows move the highlight
    /// within bounds (no wrap), Enter pastes the highlighted entry and
    /// closes, Escape closes; other keys do nothing.
    pub fn on_key(&mut self, keycode: u16, len: usize) -> (r: ClipboardAction)
        requires
            old(self).wf(),
        ensures
            final(self).wf(),
            (*final(self), r) == key_step(*old(self), keycode, len),
            len == 0 ==> r == ClipboardAction::Ignore && *final(self) == *old(self),
            len > 0 ==> {
                let cur = match old(self).highlight_index {
                    Some(h) => h,
                    None => 0,
                };
                &&& keycode == KEY_UP ==> (cur > 0 ==> r == ClipboardAction::Highlight((cur - 1) as usize)
                    && *final(self) == (ClipboardSession { active: true, highlight_index: Some((cur - 1) as usize) }))
                    && (cur == 0 ==> r == ClipboardAction::Ignore && *final(self) == *old(self))
                &&& keycode == KEY_DOWN ==> (cur + 1 < len ==> r == ClipboardAction::Highlight((cur + 1) as usize)
                    && *final(self) == (ClipboardSession { active: true, highlight_index: Some((cur + 1) as usize) }))
                    && (cur + 1 >= len ==> r == ClipboardAction::Ignore && *final(self) == *old(self))
                &&& keycode == KEY_ENTER ==> (cur < len ==> r == ClipboardAction::Paste(cur)) && (cur >= len
                    ==> r == ClipboardAction::Close) && *final(self) == Self::idle()
                &&& keycode == KEY_ESCAPE ==> r == ClipboardAction::Close && *final(self) == Self::idle()
                &&& (keycode != KEY_UP && keycode != KEY_DOWN && keycode != KEY_ENTER && keycode
                    != KEY_ESCAPE) ==> r == ClipboardAction::Ignore && *final(self) == *old(self)
            },
    {
        if len == 0 {
            return ClipboardAction::Ignore;
        }
        let cur = match self.highlight_index {
            Some(h) => h,
            None => 0,
        };
        if keycode == KEY_UP {
            if cur > 0 {
                self.active = true;
                self.highlight_index = Some(cur - 1);
                return ClipboardAction::Highlight(cur - 1);
            }
            ClipboardAction::Ignore
        } else if keycode == KEY_DOWN {
            if cur < len - 1 {
                self.active = true;
                self.highlight_index = Some(cur + 1);
                return ClipboardAction::Highlight(cur + 1);
            }
            ClipboardAction::Ignore
        } else if keycode == KEY_ENTER {
            self.active = false;
            self.highlight_index = None;
            if cur < len {
                ClipboardAction::Paste(cur)
            } else {
                ClipboardAction::Close
            }
        } else if keycode == KEY_ESCAPE {
            self.active = false;
            self.highlight_index = None;
            ClipboardAction::Close
        } else {
            ClipboardAction::Ignore
        }
    }
}

impl Default for ClipboardSession {
    fn default() -> (r: ClipboardSession)
        ensures
            r == ClipboardSession::idle(),
    {
        ClipboardSession::new()
    }
}

/// Entering the same string twice in a row records it once; entering a
/// different string after it records both, the newest in front.
pub proof fn lemma_clipboard_suppression(h: Seq<Seq<char>>, a: Seq<char>, b: Seq<char>)
    requires
        a.len() > 0,
        b.len() > 0,
        a != b,
    ensures
        pushed(pushed(h, a), a) == pushed(h, a),
        pushed(Seq::empty(), a).len() == 1,
        pushed(pushed(Seq::empty(), a), a).len() == 1,
        pushed(pushed(Seq::empty(), a), b).len() == 2,
        pushed(pushed(Seq::empty(), a), b)[0] == b,
        pushed(pushed(Seq::empty(), a), b)[1] == a,
{
    let once = pushed(h, a);
    if !(h.len() > 0 && h[0] == a) {
        let n = seq![a] + h;
        if n.len() > CLIPBOARD_CAP {
            assert(once[0] == a);
        } else {
            assert(once[0] == a);
        }
    }
    let e = Seq::<Seq<char>>::empty();
    assert(pushed(e, a) =~= seq![a]);
    assert(pushed(seq![a], b) =~= seq![b, a]);
}

/// The switcher commits the snapshot entry at the highlight at release:
/// after a session whose Tab presses left the highlight at `h` within the
/// snapshot, the release yields `h`.
pub proof fn lemma_commit_is_highlight(s: AltTabSession, len: usize, h: usize)
    requires
        s.wf(),
        s.active,
        s.highlight_index == Some(h),
        h < len,
    ensures
        release_target(s, len) == Some(h),
{
}

} // verus!
