//! Decisions of the window mutator: which display holds a window, where a
//! display move puts it, what a switcher commit does, when a tiling job
//! waits for the focus notification, and whether a window took its geometry.
use vstd::prelude::*;
use crate::display::{PixelRect, VisibleFrame};
use crate::form::{Form, move_target_index};
use crate::model::DisplayMoveTarget;
use crate::keystate::{retry_worthy, should_use_observer_on_error};
use crate::mru::WindowIdentity;

verus! {

/// The centre of `r` lies in `f` (twice the centre, to stay in integers).
pub open spec fn centre_in(f: VisibleFrame, r: PixelRect) -> bool {
    let cx2 = 2 * r.x + r.width;
    let cy2 = 2 * r.y + r.height;
    2 * f.min_x <= cx2 < 2 * (f.min_x + f.width) && 2 * f.min_y <= cy2 < 2 * (f.min_y + f.height)
}

/// The first display from `k` on whose frame holds the window's centre;
/// the main display (index 0) when none does.
pub open spec fn holding_display(frames: Seq<VisibleFrame>, r: PixelRect, k: int) -> int
    decreases frames.len() - k,
{
    if k < 0 || k >= frames.len() {
        0
    } else if centre_in(frames[k], r) {
        k
    } else {
        holding_display(frames, r, k + 1)
    }
}

/// The first display whose frame holds the window's centre; the main
/// display (index 0) when none does.
pub fn display_index_for_rect(frames: &Vec<VisibleFrame>, r: &PixelRect) -> (idx: usize)
    ensures
        (exists|k: int| 0 <= k < frames@.len() && centre_in(frames@[k], *r)) ==> idx < frames@.len() && centre_in(
            frames@[idx as int],
            *r,
        ) && forall|k: int| 0 <= k < idx ==> !centre_in(#[trigger] frames@[k], *r),
        !(exists|k: int| 0 <= k < frames@.len() && centre_in(frames@[k], *r)) ==> idx == 0,
        idx == holding_display(frames@, *r, 0),
{
    let cx2 = 2 * (r.x as i128) + (r.width as i128);
    let cy2 = 2 * (r.y as i128) + (r.height as i128);
    let mut i: usize = 0;
    while i < frames.len()
        invariant
            i <= frames@.len(),
            cx2 == 2 * r.x + r.width,
            cy2 == 2 * r.y + r.height,
            forall|k: int| 0 <= k < i ==> !centre_in(#[trigger] frames@[k], *r),
            holding_display(frames@, *r, 0) == holding_display(frames@, *r, i as int),
        decreases frames@.len() - i,
    {
        let f = frames[i];
        let x0 = 2 * (f.min_x as i128);
        let x1 = 2 * ((f.min_x as i128) + (f.width as i128));
        let y0 = 2 * (f.min_y as i128);
        let y1 = 2 * ((f.min_y as i128) + (f.height as i128));
        if x0 <= cx2 && cx2 < x1 && y0 <= cy2 && cy2 < y1 {
            return i;
        }
        i = i + 1;
    }
    0
}

/// The window moved by the difference of the two frames' origins, size kept.
pub open spec fn translated(r: PixelRect, from: VisibleFrame, to: VisibleFrame) -> PixelRect {
    PixelRect {
        x: (r.x + (to.min_x - from.min_x)) as i64,
        y: (r.y + (to.min_y - from.min_y)) as i64,
        width: r.width,
        height: r.height,
    }
}

/// Coordinates a screen can have.
pub open spec fn on_screen_range(r: PixelRect) -> bool {
    -0x4000_0000_0000_0000 <= r.x <= 0x4000_0000_0000_0000 && -0x4000_0000_0000_0000 <= r.y
        <= 0x4000_0000_0000_0000
}

/// Keeps a window's offset within its frame while moving it to another display.
pub fn translate_between(r: &PixelRect, from: &VisibleFrame, to: &VisibleFrame) -> (t: PixelRect)
    requires
        on_screen_range(*r),
    ensures
        t == translated(*r, *from, *to),
{
    let dx = (to.min_x as i64) - (from.min_x as i64);
    let dy = (to.min_y as i64) - (from.min_y as i64);
    PixelRect { x: r.x + dx, y: r.y + dy, width: r.width, height: r.height }
}

/// Where a move with target `t` puts a window at `r`: from the display
/// holding its centre to the target index, keeping its offset; `None` when
/// unbound, out of range, or the same display.
pub open spec fn planned_move(t: Option<DisplayMoveTarget>, frames: Seq<VisibleFrame>, r: PixelRect) -> Option<PixelRect> {
    match t {
        None => None,
        Some(m) => if frames.len() == 0 {
            None
        } else {
            let cur = holding_display(frames, r, 0);
            match move_target_index(m, cur as usize, frames.len() as usize) {
                Some(to) => if to as int != cur && (to as int) < frames.len() {
                    Some(translated(r, frames[cur], frames[to as int]))
                } else {
                    None
                },
                None => None,
            }
        },
    }
}

/// Where a display move bound to `key` puts a window at `r`: `None` when the
/// key is unbound, the target is out of range, or it is the current display.
pub fn plan_display_move(form: &Form, key: &str, frames: &Vec<VisibleFrame>, r: &PixelRect) -> (p: Option<
    PixelRect,
>)
    requires
        on_screen_range(*r),
    ensures
        p == planned_move(form.move_target(key@), frames@, *r),
{
    if frames.len() == 0 {
        return None;
    }
    let current = display_index_for_rect(frames, r);
    let target = match form.execute_display_move(key, current, frames.len()) {
        Some(t) => t,
        None => return None,
    };
    if target == current || target >= frames.len() {
        return None;
    }
    let t = translate_between(r, &frames[current], &frames[target]);
    proof {
        assert(current < frames@.len());
    }
    Some(t)
}

/// Requested and actual geometry agree within one pixel on every side.
pub open spec fn close_to(a: PixelRect, b: PixelRect) -> bool {
    -1 <= a.x - b.x <= 1 && -1 <= a.y - b.y <= 1 && -1 <= a.width - b.width <= 1 && -1 <= a.height - b.height <= 1
}

/// Whether the window took the requested geometry (some applications clamp).
pub fn geometry_matches(requested: &PixelRect, actual: &PixelRect) -> (r: bool)
    ensures
        r == close_to(*requested, *actual),
{
    let dx = requested.x as i128 - actual.x as i128;
    let dy = requested.y as i128 - actual.y as i128;
    let dw = requested.width as i128 - actual.width as i128;
    let dh = requested.height as i128 - actual.height as i128;
    -1 <= dx && dx <= 1 && -1 <= dy && dy <= 1 && -1 <= dw && dw <= 1 && -1 <= dh && dh <= 1
}

/// What committing a switcher entry does.
#[derive(Debug, Clone, Copy, PartialEq, Eq, Structural)]
pub struct CommitPlan {
    /// Activate the target's application (ignoring other apps).
    pub activate_app: bool,
    /// Un-minimise the window, make it main and raise it.
    pub focus_window: bool,
}

/// Activate when the target belongs to another application than the
/// frontmost; focus the window when it has an id and the switch crossed
/// applications or the application's focused window is another one.
pub fn commit_plan(target: WindowIdentity, frontmost_pid: Option<u32>, focused_window: Option<u32>) -> (p:
    CommitPlan)
    ensures
        p.activate_app == (frontmost_pid != Some(target.pid)),
        p.focus_window == (target.window_id != 0 && (frontmost_pid != Some(target.pid) || focused_window != Some(
            target.window_id,
        ))),
{
    let cross = match frontmost_pid {
        Some(pid) => pid != target.pid,
        None => true,
    };
    let other_window = match focused_window {
        Some(w) => w != target.window_id,
        None => true,
    };
    CommitPlan { activate_app: cross, focus_window: target.window_id != 0 && (cross || other_window) }
}

/// What a failed tiling attempt leads to.
#[derive(Debug, Clone, Copy, PartialEq, Eq, Structural)]
pub enum RetryDecision {
    /// Wait for the focused-window notification, then redo the job once.
    WaitForFocus,
    /// Report the failure.
    Fail,
}

/// The first attempt of a job whose window was not ready, or could not
/// complete, waits for the focus notification; anything else fails.
pub fn on_tiling_error(error: &str, attempt: u32) -> (r: RetryDecision)
    ensures
        r == (if attempt == 0 && retry_worthy(error@) {
            RetryDecision::WaitForFocus
        } else {
            RetryDecision::Fail
        }),
{
    if attempt == 0 && should_use_observer_on_error(error) {
        RetryDecision::WaitForFocus
    } else {
        RetryDecision::Fail
    }
}

/// The processes with a focus-notification retry in progress; at most one each.
#[derive(Debug)]
pub struct RetryRegistry {
    pub pids: Vec<u32>,
}

impl RetryRegistry {
    pub open spec fn wf(&self) -> bool {
        forall|i: int, j: int| 0 <= i < j < self.pids@.len() ==> self.pids@[i] != self.pids@[j]
    }

    pub fn new() -> (r: RetryRegistry)
        ensures
            r.wf(),
            r.pids@.len() == 0,
    {
        RetryRegistry { pids: Vec::new() }
    }

    /// Starts a retry for `pid`; `false` (and nothing changes) when one is already active.
    pub fn begin(&mut self, pid: u32) -> (r: bool)
        requires
            old(self).wf(),
        ensures
            final(self).wf(),
            r == !old(self).pids@.contains(pid),
            r ==> final(self).pids@ == old(self).pids@.push(pid),
            !r ==> final(self).pids@ == old(self).pids@,
    {
        let mut i: usize = 0;
        while i < self.pids.len()
            invariant
                i <= self.pids@.len(),
                self.pids@ == old(self).pids@,
                self.wf(),
                forall|k: int| 0 <= k < i ==> self.pids@[k] != pid,
            decreases self.pids@.len() - i,
        {
            if self.pids[i] == pid {
                proof {
                    assert(self.pids@[i as int] == pid);
                }
                return false;
            }
            i = i + 1;
        }
        self.pids.push(pid);
        true
    }

    /// Ends the retry of `pid` (the notification came or the timeout fired).
    pub fn finish(&mut self, pid: u32)
        requires
            old(self).wf(),
        ensures
            final(self).wf(),
            !final(self).pids@.contains(pid),
            forall|p: u32| p != pid ==> (final(self).pids@.contains(p) == old(self).pids@.contains(p)),
    {
        let mut i: usize = 0;
        while i < self.pids.len()
            invariant
                i <= self.pids@.len(),
                self.pids@ == old(self).pids@,
                self.wf(),
                forall|k: int| 0 <= k < i ==> self.pids@[k] != pid,
            decreases self.pids@.len() - i,
        {
            if self.pids[i] == pid {
                let ghost before = self.pids@;
                self.pids.remove(i);
                proof {
                    assert forall|k: int| 0 <= k < self.pids@.len() implies self.pids@[k] != pid by {
                        if k < i {
                            assert(self.pids@[k] == before[k]);
                        } else {
                            assert(self.pids@[k] == before[k + 1]);
                        }
                    }
                    assert forall|a: int, b: int| 0 <= a < b < self.pids@.len() implies self.pids@[a] != self.pids@[b] by {
                        let a2 = if a < i { a } else { a + 1 };
                        let b2 = if b < i { b } else { b + 1 };
                        assert(self.pids@[a] == before[a2]);
                        assert(self.pids@[b] == before[b2]);
                    }
                    assert forall|p: u32| p != pid implies (self.pids@.contains(p) == before.contains(p)) by {
                        if before.contains(p) {
                            let k = choose|k: int| 0 <= k < before.len() && before[k] == p;
                            if k < i {
                                assert(self.pids@[k] == p);
                            } else {
                                assert(k != i);
                                assert(self.pids@[k - 1] == p);
                            }
                        }
                        if self.pids@.contains(p) {
                            let k = choose|k: int| 0 <= k < self.pids@.len() && self.pids@[k] == p;
                            if k < i {
                                assert(before[k] == p);
                            } else {
                                assert(before[k + 1] == p);
                            }
                        }
                    }
                }
                return;
            }
            i = i + 1;
        }
    }
}

} // verus!
