//! Key-state display, application tags and the small decisions of the
//! event pipeline.
use vstd::prelude::*;
use crate::form::Form;
use crate::keymap::{usage_name, usage_to_key_name};
use crate::mru::FrontmostInfo;
use crate::text::{seq_contains, str_contains, str_eq};

verus! {

/// Modifier keys held and the non-modifier keys pressed, in press order.
#[derive(Debug, Clone)]
pub struct KeyState {
    pub left_shift: bool,
    pub right_shift: bool,
    pub left_control: bool,
    pub right_control: bool,
    pub left_alt: bool,
    pub right_alt: bool,
    pub left_cmd: bool,
    pub right_cmd: bool,
    pub caps_lock: bool,
    pub pressed_order: Vec<u32>,
}

/// Screen quadrants.
#[derive(Debug, Clone, Copy, PartialEq, Eq, Structural)]
pub enum Quad {
    UL,
    UR,
    LL,
    LR,
}

/// Upper case when held, lower case when not.
pub open spec fn token(held: bool, up: Seq<char>, down: Seq<char>) -> Seq<char> {
    if held {
        up
    } else {
        down
    }
}

/// The key names of `keys`, separated by single spaces.
pub open spec fn joined_names(keys: Seq<u32>) -> Seq<char>
    decreases keys.len(),
{
    if keys.len() == 0 {
        Seq::empty()
    } else if keys.len() == 1 {
        usage_name(keys[0])
    } else {
        joined_names(keys.drop_last()) + seq![' '] + usage_name(keys.last())
    }
}

impl KeyState {
    pub fn new() -> (r: KeyState)
        ensures
            r.pressed_order@.len() == 0,
            !r.left_shift && !r.right_shift && !r.left_control && !r.right_control,
            !r.left_alt && !r.right_alt && !r.left_cmd && !r.right_cmd && !r.caps_lock,
    {
        KeyState {
            left_shift: false,
            right_shift: false,
            left_control: false,
            right_control: false,
            left_alt: false,
            right_alt: false,
            left_cmd: false,
            right_cmd: false,
            caps_lock: false,
            pressed_order: Vec::new(),
        }
    }

    /// The modifier part of the display: eight tokens separated by spaces.
    pub open spec fn modifiers_text(&self) -> Seq<char> {
        token(self.left_shift, "LSH"@, "lsh"@) + " "@ + token(self.right_shift, "RSH"@, "rsh"@) + " "@
            + token(self.left_control, "LCT"@, "lct"@) + " "@ + token(self.right_control, "RCT"@, "rct"@)
            + " "@ + token(self.left_alt, "LAL"@, "lal"@) + " "@ + token(self.right_alt, "RAL"@, "ral"@)
            + " "@ + token(self.left_cmd, "LME"@, "lme"@) + " "@ + token(self.right_cmd, "RME"@, "rme"@)
    }

    /// One line: the modifier tokens, then `" || Keys: "` and the pressed keys.
    pub fn format_output(&self) -> (r: String)
        ensures
            r@ == self.modifiers_text() + " || Keys: "@ + joined_names(self.pressed_order@),
    {
        let mut s = String::new();
        s.append(if self.left_shift { "LSH" } else { "lsh" });
        s.append(" ");
        s.append(if self.right_shift { "RSH" } else { "rsh" });
        s.append(" ");
        s.append(if self.left_control { "LCT" } else { "lct" });
        s.append(" ");
        s.append(if self.right_control { "RCT" } else { "rct" });
        s.append(" ");
        s.append(if self.left_alt { "LAL" } else { "lal" });
        s.append(" ");
        s.append(if self.right_alt { "RAL" } else { "ral" });
        s.append(" ");
        s.append(if self.left_cmd { "LME" } else { "lme" });
        s.append(" ");
        s.append(if self.right_cmd { "RME" } else { "rme" });
        assert(s@ =~= self.modifiers_text());
        s.append(" || Keys: ");
        let ghost head = s@;
        let mut i: usize = 0;
        proof {
            reveal_strlit(" ");
            assert(joined_names(self.pressed_order@.subrange(0, 0)) =~= Seq::<char>::empty());
            assert(s@ =~= head + joined_names(self.pressed_order@.subrange(0, 0)));
        }
        while i < self.pressed_order.len()
            invariant
                i <= self.pressed_order@.len(),
                s@ == head + joined_names(self.pressed_order@.subrange(0, i as int)),
                " "@ == seq![' '],
            decreases self.pressed_order@.len() - i,
        {
            let ghost prefix = self.pressed_order@.subrange(0, i as int);
            let ghost next = self.pressed_order@.subrange(0, i + 1);
            assert(next.drop_last() =~= prefix);
            if i > 0 {
                s.append(" ");
            }
            let name = usage_to_key_name(self.pressed_order[i]);
            s.append(name.as_str());
            proof {
                if i == 0 {
                    assert(joined_names(next) == usage_name(next[0]));
                    assert(s@ =~= head + joined_names(next));
                } else {
                    assert(s@ =~= head + joined_names(next));
                }
            }
            i = i + 1;
        }
        assert(self.pressed_order@.subrange(0, self.pressed_order@.len() as int) =~= self.pressed_order@);
        s
    }
}

impl Default for KeyState {
    fn default() -> (r: KeyState)
        ensures
            r.pressed_order@.len() == 0,
            !r.left_shift && !r.right_shift && !r.left_control && !r.right_control,
            !r.left_alt && !r.right_alt && !r.left_cmd && !r.right_cmd && !r.caps_lock,
    {
        KeyState::new()
    }
}

/// Bundle identifiers of Chromium-family browsers.
pub open spec fn chromium_ids() -> Seq<Seq<char>> {
    seq![
        "com.google.Chrome"@,
        "com.google.Chrome.canary"@,
        "org.chromium.Chromium"@,
        "com.brave.Browser"@,
        "com.microsoft.Edge"@,
        "com.vivaldi.Vivaldi"@,
        "company.thebrowser.Browser"@,
    ]
}

/// Whether the application is a Chromium-family browser (exact bundle id).
pub fn is_chromium_based(bundle_id: &str) -> (r: bool)
    ensures
        r == chromium_ids().contains(bundle_id@),
{
    let ids = [
        "com.google.Chrome",
        "com.google.Chrome.canary",
        "org.chromium.Chromium",
        "com.brave.Browser",
        "com.microsoft.Edge",
        "com.vivaldi.Vivaldi",
        "company.thebrowser.Browser",
    ];
    let ghost spec_ids = chromium_ids();
    assert(ids@.map_values(|s: &str| s@) =~= spec_ids);
    let mut i: usize = 0;
    while i < 7
        invariant
            i <= 7,
            ids@.len() == 7,
            ids@.map_values(|s: &str| s@) == spec_ids,
            spec_ids == chromium_ids(),
            forall|k: int| 0 <= k < i ==> spec_ids[k] != bundle_id@,
        decreases 7 - i,
    {
        assert(spec_ids[i as int] == ids@[i as int]@);
        if str_eq(ids[i], bundle_id) {
            assert(spec_ids[i as int] == bundle_id@);
            assert(chromium_ids().contains(bundle_id@)) by {
                assert(spec_ids[i as int] == bundle_id@ && 0 <= i < spec_ids.len());
            }
            return true;
        }
        i = i + 1;
    }
    false
}

/// Accessibility error texts that call for the focus-notification retry.
pub open spec fn retry_worthy(msg: Seq<char>) -> bool {
    seq_contains(msg, "ax_not_ready_retry_needed"@) || seq_contains(msg, "ax_cannot_complete_retry_needed"@)
}

/// Whether a failed tiling attempt should wait for the focus-change notification.
pub fn should_use_observer_on_error(error_msg: &str) -> (r: bool)
    ensures
        r == retry_worthy(error_msg@),
{
    str_contains(error_msg, "ax_not_ready_retry_needed") || str_contains(
        error_msg,
        "ax_cannot_complete_retry_needed",
    )
}

/// What a configured key does.
#[derive(Debug, Clone, Copy, PartialEq, Eq, Structural)]
pub enum KeyBinding {
    Layout,
    DisplayMove,
    Unbound,
}

/// A layout job for the main run loop.
#[derive(Debug, Clone)]
pub struct TilingJob {
    pub frontmost: FrontmostInfo,
    /// 0 on the first attempt; a retry after the focus notification is 1.
    pub attempt: u32,
    pub key_name: Option<String>,
}

/// Decides what a configured key triggers: a layout binding first, then a
/// display move.
pub fn handle_configured_key(form: &Form, key: &str) -> (r: KeyBinding)
    ensures
        form.binding(key@) is Some ==> r == KeyBinding::Layout,
        form.binding(key@) is None && form.move_target(key@) is Some ==> r == KeyBinding::DisplayMove,
        form.binding(key@) is None && form.move_target(key@) is None ==> r == KeyBinding::Unbound,
{
    if form.has_layout_action(key) {
        KeyBinding::Layout
    } else if form.has_display_move(key) {
        KeyBinding::DisplayMove
    } else {
        KeyBinding::Unbound
    }
}

/// The tiling job for a layout key pressed while `frontmost` is in front.
pub fn tiling_job(frontmost: FrontmostInfo, key: &str) -> (r: TilingJob)
    ensures
        r.attempt == 0,
        r.key_name matches Some(k) && k@ == key@,
        r.frontmost == frontmost,
{
    TilingJob { frontmost, attempt: 0, key_name: Some(String::from_str(key)) }
}

/// The layout chord was released: the layout session ends.
pub fn reset_layout_session(form: &mut Form)
    ensures
        final(form).layout_session is None,
        final(form).layouts == old(form).layouts,
        final(form).bindings == old(form).bindings,
        final(form).frames == old(form).frames,
        final(form).spaces == old(form).spaces,
        final(form).measures == old(form).measures,
        final(form).display_moves == old(form).display_moves,
{
    form.reset_layout_session();
}

/// Accessibility failures.
#[derive(Debug, Clone, Copy, PartialEq, Eq, Structural)]
pub enum AxError {
    Permission,
    Constrained,
    Platform(i32),
}

} // verus!
