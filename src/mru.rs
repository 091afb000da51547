//! The most-recently-used window registry behind the window switcher.
use vstd::prelude::*;
use crate::text::{decimal_digits, decimal_string, str_eq};

verus! {

/// A window: its process and window number (0 for an application
/// placeholder whose windows are not known).
#[derive(Debug, Clone, Copy, PartialEq, Eq, Hash, Structural)]
pub struct WindowIdentity {
    pub pid: u32,
    pub window_id: u32,
}

/// Known: seen focused. Guess: found by enumeration, or a placeholder.
#[derive(Debug, Clone, Copy, PartialEq, Eq, Structural)]
pub enum ActivationState {
    Known,
    Guess,
}

#[derive(Debug, Clone)]
pub struct MruWindowEntry {
    pub identity: WindowIdentity,
    pub bundle_id: String,
    pub title: String,
    pub activation_state: ActivationState,
}

/// The application at the front.
#[derive(Debug, Clone)]
pub struct FrontmostInfo {
    pub pid: u32,
    pub bundle_id: String,
    pub name: String,
}

/// The focused window of an application as the accessibility API reports it.
#[derive(Debug, Clone)]
pub struct FocusedWindowInfo {
    pub window_id: u32,
    pub title: String,
    pub role: Option<String>,
}

/// A top-level window found by enumerating an application's windows.
#[derive(Debug, Clone)]
pub struct EnumeratedWindow {
    pub window_id: u32,
    pub title: String,
}

/// A running application and the windows enumeration found for it.
#[derive(Debug, Clone)]
pub struct RunningApp {
    pub pid: u32,
    pub bundle_id: String,
    pub name: String,
    pub windows: Vec<EnumeratedWindow>,
}

/// The stack, most recent first.
#[derive(Debug)]
pub struct MruStack {
    pub entries: Vec<MruWindowEntry>,
}

/// The accessibility role of a standard window.
pub open spec fn window_role() -> Seq<char> {
    seq!['A', 'X', 'W', 'i', 'n', 'd', 'o', 'w']
}

/// No two entries share a window identity.
pub open spec fn unique_ids(s: Seq<MruWindowEntry>) -> bool {
    forall|i: int, j: int| 0 <= i < s.len() && 0 <= j < s.len() && i != j ==> s[i].identity != s[j].identity
}

pub open spec fn has_id(s: Seq<MruWindowEntry>, id: WindowIdentity) -> bool {
    exists|k: int| 0 <= k < s.len() && s[k].identity == id
}

pub open spec fn has_pid(s: Seq<MruWindowEntry>, pid: u32) -> bool {
    exists|k: int| 0 <= k < s.len() && s[k].identity.pid == pid
}

/// A focus report names a standard window with a nonzero id.
pub open spec fn is_standard_focus(info: FocusedWindowInfo) -> bool {
    info.window_id != 0 && match info.role {
        Some(role) => role@ == window_role(),
        None => false,
    }
}

/// What a focus update removes: the placeholders of the process and the
/// window's own earlier entry.
pub open spec fn superseded(e: MruWindowEntry, id: WindowIdentity) -> bool {
    (e.identity.pid == id.pid && e.identity.window_id == 0) || e.identity == id
}

/// `s` without the superseded entries, in order.
pub open spec fn without_superseded(s: Seq<MruWindowEntry>, id: WindowIdentity) -> Seq<MruWindowEntry>
    decreases s.len(),
{
    if s.len() == 0 {
        s
    } else {
        let prev = without_superseded(s.drop_last(), id);
        if superseded(s.last(), id) { prev } else { prev.push(s.last()) }
    }
}

/// Entries kept by liveness pruning: placeholders and live windows.
pub open spec fn kept_alive(e: MruWindowEntry, live: Seq<WindowIdentity>) -> bool {
    e.identity.window_id == 0 || live.contains(e.identity)
}

pub open spec fn prune_spec(s: Seq<MruWindowEntry>, live: Seq<WindowIdentity>) -> Seq<MruWindowEntry>
    decreases s.len(),
{
    if s.len() == 0 {
        s
    } else {
        let prev = prune_spec(s.drop_last(), live);
        if kept_alive(s.last(), live) { prev.push(s.last()) } else { prev }
    }
}

pub open spec fn without_pid(s: Seq<MruWindowEntry>, pid: u32) -> Seq<MruWindowEntry>
    decreases s.len(),
{
    if s.len() == 0 {
        s
    } else {
        let prev = without_pid(s.drop_last(), pid);
        if s.last().identity.pid == pid { prev } else { prev.push(s.last()) }
    }
}

/// Every entry of `t` is an entry of `s`.
pub open spec fn sub_of(t: Seq<MruWindowEntry>, s: Seq<MruWindowEntry>) -> bool {
    forall|k: int| 0 <= k < t.len() ==> s.contains(#[trigger] t[k])
}

fn copy_entry(e: &MruWindowEntry) -> (r: MruWindowEntry)
    ensures
        r == *e,
{
    MruWindowEntry {
        identity: e.identity,
        bundle_id: e.bundle_id.clone(),
        title: e.title.clone(),
        activation_state: e.activation_state,
    }
}

/// Appending an entry to a kept subsequence keeps it unique and within the source.
proof fn lemma_keep_push(prev: Seq<MruWindowEntry>, s: Seq<MruWindowEntry>, x: MruWindowEntry)
    requires
        unique_ids(s.push(x)),
        unique_ids(prev),
        sub_of(prev, s),
    ensures
        unique_ids(prev.push(x)),
        sub_of(prev.push(x), s.push(x)),
{
    let t = prev.push(x);
    let s2 = s.push(x);
    assert forall|k: int| 0 <= k < t.len() implies s2.contains(#[trigger] t[k]) by {
        if k < prev.len() {
            assert(s.contains(prev[k]));
            let j = choose|j: int| 0 <= j < s.len() && s[j] == prev[k];
            assert(s2[j] == t[k]);
        } else {
            assert(s2[s.len() as int] == t[k]);
        }
    }
    assert forall|i: int, j: int| 0 <= i < t.len() && 0 <= j < t.len() && i != j implies t[i].identity
        != t[j].identity by {
        if i < prev.len() && j < prev.len() {
        } else if i < prev.len() {
            assert(s.contains(prev[i]));
            let a = choose|a: int| 0 <= a < s.len() && s[a] == prev[i];
            assert(s2[a] == t[i]);
            assert(s2[s.len() as int] == t[j]);
        } else if j < prev.len() {
            assert(s.contains(prev[j]));
            let a = choose|a: int| 0 <= a < s.len() && s[a] == prev[j];
            assert(s2[a] == t[j]);
            assert(s2[s.len() as int] == t[i]);
        }
    }
}

proof fn lemma_sub_of_push(prev: Seq<MruWindowEntry>, s: Seq<MruWindowEntry>, x: MruWindowEntry)
    requires
        sub_of(prev, s),
    ensures
        sub_of(prev, s.push(x)),
{
    assert forall|k: int| 0 <= k < prev.len() implies s.push(x).contains(#[trigger] prev[k]) by {
        assert(s.contains(prev[k]));
        let j = choose|j: int| 0 <= j < s.len() && s[j] == prev[k];
        assert(s.push(x)[j] == prev[k]);
    }
}

proof fn lemma_unique_prefix(s: Seq<MruWindowEntry>, i: int)
    requires
        unique_ids(s),
        0 <= i <= s.len(),
    ensures
        unique_ids(s.subrange(0, i)),
{
}

impl MruStack {
    pub open spec fn wf(&self) -> bool {
        unique_ids(self.entries@)
    }

    pub fn new() -> (r: MruStack)
        ensures
            r.wf(),
            r.entries@.len() == 0,
    {
        MruStack { entries: Vec::new() }
    }

    /// Whether an entry with this identity is present.
    pub fn contains_id(&self, id: WindowIdentity) -> (r: bool)
        ensures
            r == has_id(self.entries@, id),
    {
        let mut i: usize = 0;
        while i < self.entries.len()
            invariant
                i <= self.entries@.len(),
                forall|k: int| 0 <= k < i ==> self.entries@[k].identity != id,
            decreases self.entries@.len() - i,
        {
            if self.entries[i].identity == id {
                return true;
            }
            i = i + 1;
        }
        false
    }

    /// Removes superseded entries and puts a Known entry for `id` in front.
    fn push_front_known(&mut self, id: WindowIdentity, bundle_id: String, title: String)
        requires
            old(self).wf(),
        ensures
            final(self).wf(),
            final(self).entries@ == seq![MruWindowEntry {
                identity: id,
                bundle_id,
                title,
                activation_state: ActivationState::Known,
            }] + without_superseded(old(self).entries@, id),
    {
        let ghost s = self.entries@;
        let mut kept: Vec<MruWindowEntry> = Vec::new();
        let mut i: usize = 0;
        while i < self.entries.len()
            invariant
                self.entries@ == s,
                unique_ids(s),
                i <= s.len(),
                kept@ == without_superseded(s.subrange(0, i as int), id),
                unique_ids(kept@),
                sub_of(kept@, s.subrange(0, i as int)),
                forall|k: int| 0 <= k < kept@.len() ==> !superseded(#[trigger] kept@[k], id),
            decreases s.len() - i,
        {
            let e = &self.entries[i];
            proof {
                assert(s.subrange(0, i + 1).drop_last() =~= s.subrange(0, i as int));
                assert(s.subrange(0, i + 1) =~= s.subrange(0, i as int).push(s[i as int]));
                lemma_unique_prefix(s, i + 1);
            }
            let drop_it = (e.identity.pid == id.pid && e.identity.window_id == 0) || e.identity == id;
            if !drop_it {
                let c = copy_entry(e);
                proof {
                    lemma_keep_push(kept@, s.subrange(0, i as int), c);
                }
                kept.push(c);
            } else {
                proof {
                    lemma_sub_of_push(kept@, s.subrange(0, i as int), s[i as int]);
                }
            }
            i = i + 1;
        }
        assert(s.subrange(0, s.len() as int) =~= s);
        let front = MruWindowEntry { identity: id, bundle_id, title, activation_state: ActivationState::Known };
        let mut out: Vec<MruWindowEntry> = Vec::new();
        out.push(front);
        out.append(&mut kept);
        proof {
            let o = out@;
            assert forall|a: int, b: int| 0 <= a < o.len() && 0 <= b < o.len() && a != b implies o[a].identity
                != o[b].identity by {
                if a == 0 {
                    assert(!superseded(o[b], id));
                } else if b == 0 {
                    assert(!superseded(o[a], id));
                } else {
                    assert(o[a] == without_superseded(s, id)[a - 1]);
                    assert(o[b] == without_superseded(s, id)[b - 1]);
                }
            }
        }
        self.entries = out;
    }

    /// Records that window `info` of process `pid` has focus: rejected (and
    /// `false` returned) unless it is a standard window with a nonzero id;
    /// otherwise the process's placeholders and the window's earlier entry
    /// go, and a Known entry for it goes in front.
    pub fn update_mru_with_focus(&mut self, pid: u32, bundle_id: &str, info: &FocusedWindowInfo) -> (r: bool)
        requires
            old(self).wf(),
        ensures
            final(self).wf(),
            r == is_standard_focus(*info),
            !r ==> final(self).entries@ == old(self).entries@,
            r ==> final(self).entries@ == seq![MruWindowEntry {
                identity: WindowIdentity { pid, window_id: info.window_id },
                bundle_id: final(self).entries@[0].bundle_id,
                title: info.title,
                activation_state: ActivationState::Known,
            }] + without_superseded(old(self).entries@, WindowIdentity { pid, window_id: info.window_id }),
            r ==> final(self).entries@[0].bundle_id@ == bundle_id@,
    {
        let standard = match &info.role {
            Some(role) => {
                proof {
                    reveal_strlit("AXWindow");
                    assert("AXWindow"@ =~= window_role());
                }
                str_eq(role.as_str(), "AXWindow")
            },
            None => false,
        };
        if info.window_id == 0 || !standard {
            return false;
        }
        let id = WindowIdentity { pid, window_id: info.window_id };
        self.push_front_known(id, String::from_str(bundle_id), info.title.clone());
        true
    }

    /// Adds an enumerated window as a Guess at the back, unless present.
    pub fn add_enumerated_window_to_mru(&mut self, pid: u32, bundle_id: &str, win: &EnumeratedWindow)
        requires
            old(self).wf(),
        ensures
            final(self).wf(),
            has_id(old(self).entries@, WindowIdentity { pid, window_id: win.window_id }) ==> final(self).entries@
                == old(self).entries@,
            !has_id(old(self).entries@, WindowIdentity { pid, window_id: win.window_id }) ==> final(self).entries@
                == old(self).entries@.push(
                MruWindowEntry {
                    identity: WindowIdentity { pid, window_id: win.window_id },
                    bundle_id: final(self).entries@.last().bundle_id,
                    title: win.title,
                    activation_state: ActivationState::Guess,
                },
            ) && final(self).entries@.last().bundle_id@ == bundle_id@,
    {
        let id = WindowIdentity { pid, window_id: win.window_id };
        if self.contains_id(id) {
            return;
        }
        let e = MruWindowEntry {
            identity: id,
            bundle_id: String::from_str(bundle_id),
            title: win.title.clone(),
            activation_state: ActivationState::Guess,
        };
        self.entries.push(e);
    }

    /// Adds a placeholder Guess entry (window id 0) for an application at the
    /// back, unless present.
    pub fn add_app_to_mru_as_guess(&mut self, pid: u32, bundle_id: &str, name: &str)
        requires
            old(self).wf(),
        ensures
            final(self).wf(),
            has_id(old(self).entries@, WindowIdentity { pid, window_id: 0 }) ==> final(self).entries@ == old(
                self,
            ).entries@,
            !has_id(old(self).entries@, WindowIdentity { pid, window_id: 0 }) ==> final(self).entries@.len()
                == old(self).entries@.len() + 1 && final(self).entries@.drop_last() == old(self).entries@
                && final(self).entries@.last().identity == (WindowIdentity { pid, window_id: 0 })
                && final(self).entries@.last().title@ == name@ && final(self).entries@.last().bundle_id@
                == bundle_id@ && final(self).entries@.last().activation_state == ActivationState::Guess,
    {
        let id = WindowIdentity { pid, window_id: 0 };
        if self.contains_id(id) {
            return;
        }
        let e = MruWindowEntry {
            identity: id,
            bundle_id: String::from_str(bundle_id),
            title: String::from_str(name),
            activation_state: ActivationState::Guess,
        };
        self.entries.push(e);
        assert(self.entries@.drop_last() =~= old(self).entries@);
    }

    /// Adds the frontmost application: its focused window as Known in front
    /// where one is identifiable, else a placeholder Guess at the back.
    pub fn add_app_to_mru_as_known(&mut self, pid: u32, bundle_id: &str, name: &str, focused: Option<&FocusedWindowInfo>)
        requires
            old(self).wf(),
        ensures
            final(self).wf(),
            has_pid(final(self).entries@, pid),
            forall|p: u32| has_pid(old(self).entries@, p) ==> has_pid(final(self).entries@, p),
            forall|id: WindowIdentity|
                has_id(old(self).entries@, id) && (id.window_id != 0 || id.pid != pid) ==> has_id(
                    final(self).entries@,
                    id,
                ),
            forall|id: WindowIdentity|
                has_known(old(self).entries@, id) && id.pid != pid ==> has_known(final(self).entries@, id),
            match focused {
                Some(info) => is_standard_focus(*info) ==> has_known(
                    final(self).entries@,
                    WindowIdentity { pid, window_id: info.window_id },
                ),
                None => true,
            },
            (match focused {
                Some(info) => !is_standard_focus(*info),
                None => true,
            }) ==> has_id(final(self).entries@, WindowIdentity { pid, window_id: 0 }),
    {
        if let Some(info) = focused {
            let ghost before = self.entries@;
            if self.update_mru_with_focus(pid, bundle_id, info) {
                assert(self.entries@[0].identity.pid == pid);
                proof {
                    let id = WindowIdentity { pid, window_id: info.window_id };
                    assert(self.entries@[0].identity == id);
                    assert(has_known(self.entries@, id));
                    let t = without_superseded(before, id);
                    assert forall|id2: WindowIdentity|
                        has_id(before, id2) && (id2.window_id != 0 || id2.pid != pid) implies has_id(
                        self.entries@,
                        id2,
                    ) by {
                        if id2 == id {
                            assert(self.entries@[0].identity == id2);
                        } else {
                            lemma_unsuperseded_survives(before, id, id2);
                            let k = choose|k: int| 0 <= k < t.len() && t[k].identity == id2;
                            assert(self.entries@[k + 1] == t[k]);
                        }
                    }
                    assert forall|id2: WindowIdentity| has_known(before, id2) && id2.pid != pid implies has_known(
                        self.entries@,
                        id2,
                    ) by {
                        let k0 = choose|k: int|
                            0 <= k < before.len() && before[k].identity == id2 && before[k].activation_state
                                == ActivationState::Known;
                        lemma_known_survives(before, id, k0);
                        let k = choose|k: int| 0 <= k < t.len() && t[k] == before[k0];
                        assert(self.entries@[k + 1] == t[k]);
                    }
                    assert forall|p: u32| has_pid(before, p) implies has_pid(self.entries@, p) by {
                        if p == pid {
                            assert(self.entries@[0].identity.pid == pid);
                        } else {
                            lemma_other_pid_survives(before, id, p);
                            let t = without_superseded(before, id);
                            let k = choose|k: int| 0 <= k < t.len() && t[k].identity.pid == p;
                            assert(self.entries@[k + 1] == t[k]);
                        }
                    }
                }
                return;
            }
        }
        let ghost before2 = self.entries@;
        self.add_app_to_mru_as_guess(pid, bundle_id, name);
        proof {
            if self.entries@ != before2 {
                assert(self.entries@.drop_last() =~= before2);
            }
            lemma_grow_keeps(before2, self.entries@);
            assert forall|p: u32| has_pid(before2, p) implies has_pid(self.entries@, p) by {
                let k = choose|k: int| 0 <= k < before2.len() && before2[k].identity.pid == p;
                if self.entries@ != before2 {
                    assert(self.entries@[k] == self.entries@.drop_last()[k]);
                }
            }
            let id = WindowIdentity { pid, window_id: 0 };
            if has_id(self.entries@, id) {
                let k = choose|k: int| 0 <= k < self.entries@.len() && self.entries@[k].identity == id;
                assert(self.entries@[k].identity.pid == pid);
            } else {
                assert(self.entries@.last().identity.pid == pid);
                assert(self.entries@[self.entries@.len() - 1].identity.pid == pid);
            }
        }
    }

    /// Removes the entries of windows that are no longer alive; placeholders
    /// stay. `live` lists the windows found alive. Returns how many went.
    pub fn prune_stale_mru_entries(&mut self, live: &Vec<WindowIdentity>) -> (r: usize)
        requires
            old(self).wf(),
        ensures
            final(self).wf(),
            final(self).entries@ == prune_spec(old(self).entries@, live@),
            r == old(self).entries@.len() - final(self).entries@.len(),
    {
        let ghost s = self.entries@;
        let mut kept: Vec<MruWindowEntry> = Vec::new();
        let mut i: usize = 0;
        while i < self.entries.len()
            invariant
                self.entries@ == s,
                unique_ids(s),
                i <= s.len(),
                kept@ == prune_spec(s.subrange(0, i as int), live@),
                kept@.len() <= i,
                unique_ids(kept@),
                sub_of(kept@, s.subrange(0, i as int)),
            decreases s.len() - i,
        {
            let e = &self.entries[i];
            proof {
                assert(s.subrange(0, i + 1).drop_last() =~= s.subrange(0, i as int));
                assert(s.subrange(0, i + 1) =~= s.subrange(0, i as int).push(s[i as int]));
                lemma_unique_prefix(s, i + 1);
            }
            let mut alive = e.identity.window_id == 0;
            let mut j: usize = 0;
            while j < live.len() && !alive
                invariant
                    j <= live@.len(),
                    alive == (e.identity.window_id == 0 || exists|k: int| 0 <= k < j && live@[k] == e.identity),
                decreases live@.len() - j,
            {
                if live[j] == e.identity {
                    alive = true;
                }
                j = j + 1;
            }
            proof {
                if alive && e.identity.window_id != 0 {
                    let k = choose|k: int| 0 <= k < j && live@[k] == e.identity;
                    assert(live@.contains(e.identity));
                }
                if !alive {
                    assert(!live@.contains(e.identity));
                }
            }
            if alive {
                let c = copy_entry(e);
                proof {
                    lemma_keep_push(kept@, s.subrange(0, i as int), c);
                }
                kept.push(c);
            } else {
                proof {
                    lemma_sub_of_push(kept@, s.subrange(0, i as int), s[i as int]);
                }
            }
            i = i + 1;
        }
        assert(s.subrange(0, s.len() as int) =~= s);
        let pruned = self.entries.len() - kept.len();
        self.entries = kept;
        pruned
    }

    /// Forgets a terminated application.
    pub fn remove_app(&mut self, pid: u32)
        requires
            old(self).wf(),
        ensures
            final(self).wf(),
            final(self).entries@ == without_pid(old(self).entries@, pid),
            !has_pid(final(self).entries@, pid),
    {
        let ghost s = self.entries@;
        let mut kept: Vec<MruWindowEntry> = Vec::new();
        let mut i: usize = 0;
        while i < self.entries.len()
            invariant
                self.entries@ == s,
                unique_ids(s),
                i <= s.len(),
                kept@ == without_pid(s.subrange(0, i as int), pid),
                unique_ids(kept@),
                sub_of(kept@, s.subrange(0, i as int)),
                forall|k: int| 0 <= k < kept@.len() ==> (#[trigger] kept@[k]).identity.pid != pid,
            decreases s.len() - i,
        {
            let e = &self.entries[i];
            proof {
                assert(s.subrange(0, i + 1).drop_last() =~= s.subrange(0, i as int));
                assert(s.subrange(0, i + 1) =~= s.subrange(0, i as int).push(s[i as int]));
                lemma_unique_prefix(s, i + 1);
            }
            if e.identity.pid != pid {
                let c = copy_entry(e);
                proof {
                    lemma_keep_push(kept@, s.subrange(0, i as int), c);
                }
                kept.push(c);
            } else {
                proof {
                    lemma_sub_of_push(kept@, s.subrange(0, i as int), s[i as int]);
                }
            }
            i = i + 1;
        }
        assert(s.subrange(0, s.len() as int) =~= s);
        self.entries = kept;
    }

    /// A copy of the stack, most recent first.
    pub fn get_mru_snapshot(&self) -> (r: Vec<MruWindowEntry>)
        ensures
            r@ == self.entries@,
    {
        let mut out: Vec<MruWindowEntry> = Vec::new();
        let mut i: usize = 0;
        while i < self.entries.len()
            invariant
                i <= self.entries@.len(),
                out@ == self.entries@.subrange(0, i as int),
            decreases self.entries@.len() - i,
        {
            out.push(copy_entry(&self.entries[i]));
            proof {
                assert(self.entries@.subrange(0, i + 1) =~= self.entries@.subrange(0, i as int).push(
                    self.entries@[i as int],
                ));
            }
            i = i + 1;
        }
        assert(self.entries@.subrange(0, self.entries@.len() as int) =~= self.entries@);
        out
    }
}

/// Whether an enumerated window is kept: a top-level window role and a nonzero id.
pub fn is_listed_window(role: &Option<String>, window_id: u32) -> (r: bool)
    ensures
        r == (window_id != 0 && match role {
            Some(x) => x@ == window_role(),
            None => false,
        }),
{
    proof {
        reveal_strlit("AXWindow");
        assert("AXWindow"@ =~= window_role());
    }
    match role {
        Some(x) => window_id != 0 && str_eq(x.as_str(), "AXWindow"),
        None => false,
    }
}

/// The title an enumerated window is listed under: its own, or `<win:N>`
/// when it has none.
pub open spec fn listed_title(title: Option<Seq<char>>, window_id: u32) -> Seq<char> {
    match title {
        Some(t) => if t.len() > 0 { t } else { "<win:"@ + decimal_digits(window_id as nat) + ">"@ },
        None => "<win:"@ + decimal_digits(window_id as nat) + ">"@,
    }
}

/// Names an enumerated window.
pub fn window_title(title: Option<&str>, window_id: u32) -> (r: String)
    ensures
        r@ == listed_title(
            match title {
                Some(t) => Some(t@),
                None => None,
            },
            window_id,
        ),
{
    if let Some(t) = title {
        if t.unicode_len() > 0 {
            return String::from_str(t);
        }
    }
    let digits = decimal_string(window_id as usize);
    let r = String::from_str("<win:").concat(digits.as_str()).concat(">");
    r
}

/// The window a focus report identifies, where it names a standard window.
pub open spec fn focus_id(focused: Option<&FocusedWindowInfo>) -> Option<u32> {
    match focused {
        Some(info) => if is_standard_focus(*info) {
            Some(info.window_id)
        } else {
            None
        },
        None => None,
    }
}

/// Every enumerated window (nonzero id) of the first `i` applications is present.
pub open spec fn windows_present(s: Seq<MruWindowEntry>, apps: Seq<RunningApp>, i: int) -> bool {
    forall|k: int, w: int|
        0 <= k < i && 0 <= w < apps[k].windows@.len() && apps[k].windows@[w].window_id != 0 ==> has_id(
            s,
            WindowIdentity { pid: apps[k].pid, window_id: #[trigger] apps[k].windows@[w].window_id },
        )
}

/// Every application without windows among the first `i`, other than the
/// frontmost, has a placeholder.
pub open spec fn placeholders_present(s: Seq<MruWindowEntry>, apps: Seq<RunningApp>, i: int, front: Option<u32>) -> bool {
    forall|k: int|
        0 <= k < i && apps[k].windows@.len() == 0 && front != Some(apps[k].pid) ==> has_id(
            s,
            WindowIdentity { pid: (#[trigger] apps[k]).pid, window_id: 0 },
        )
}

/// Seeds the registry from the running applications. For the frontmost
/// one its focused window goes in front as Known where identifiable; every
/// enumerated window of every application goes in as a Guess (unless
/// present), and an application without windows gets a placeholder.
pub fn prepopulate_mru(
    mru: &mut MruStack,
    apps: &Vec<RunningApp>,
    frontmost_pid: Option<u32>,
    focused: Option<&FocusedWindowInfo>,
)
    requires
        old(mru).wf(),
    ensures
        final(mru).wf(),
        forall|k: int| 0 <= k < apps@.len() ==> has_pid(final(mru).entries@, #[trigger] apps@[k].pid),
        windows_present(final(mru).entries@, apps@, apps@.len() as int),
        placeholders_present(final(mru).entries@, apps@, apps@.len() as int, frontmost_pid),
        (frontmost_pid matches Some(fp) && focus_id(focused) matches Some(w) && exists|k: int|
            0 <= k < apps@.len() && apps@[k].pid == fp) ==> has_known(
            final(mru).entries@,
            WindowIdentity { pid: frontmost_pid.unwrap(), window_id: focus_id(focused).unwrap() },
        ),
{
    let mut i: usize = 0;
    while i < apps.len()
        invariant
            i <= apps@.len(),
            mru.wf(),
            forall|k: int| 0 <= k < i ==> has_pid(mru.entries@, #[trigger] apps@[k].pid),
            windows_present(mru.entries@, apps@, i as int),
            placeholders_present(mru.entries@, apps@, i as int, frontmost_pid),
            (frontmost_pid matches Some(fp) && focus_id(focused) matches Some(w) && exists|k: int|
                0 <= k < i && apps@[k].pid == fp) ==> has_known(
                mru.entries@,
                WindowIdentity { pid: frontmost_pid.unwrap(), window_id: focus_id(focused).unwrap() },
            ),
        decreases apps@.len() - i,
    {
        let app = &apps[i];
        let ghost before = mru.entries@;
        let ghost known_id = WindowIdentity { pid: app.pid, window_id: focus_id(focused).unwrap_or(0) };
        if frontmost_pid == Some(app.pid) {
            mru.add_app_to_mru_as_known(app.pid, app.bundle_id.as_str(), app.name.as_str(), focused);
            proof {
                assert forall|k: int, w: int|
                    0 <= k < i && 0 <= w < apps@[k].windows@.len() && apps@[k].windows@[w].window_id != 0 implies has_id(
                    mru.entries@,
                    WindowIdentity { pid: apps@[k].pid, window_id: #[trigger] apps@[k].windows@[w].window_id },
                ) by {
                    assert(has_id(before, WindowIdentity { pid: apps@[k].pid, window_id: apps@[k].windows@[w].window_id }));
                }
                assert forall|k: int|
                    0 <= k < i && apps@[k].windows@.len() == 0 && frontmost_pid != Some(apps@[k].pid) implies has_id(
                    mru.entries@,
                    WindowIdentity { pid: (#[trigger] apps@[k]).pid, window_id: 0 },
                ) by {
                    assert(has_id(before, WindowIdentity { pid: apps@[k].pid, window_id: 0 }));
                }
                if focus_id(focused) is Some {
                    match focused {
                        Some(info) => {
                            assert(is_standard_focus(*info));
                        },
                        None => {},
                    }
                }
            }
        }
        proof {
            if frontmost_pid is Some && focus_id(focused) is Some && frontmost_pid != Some(app.pid) {
                let fp = frontmost_pid.unwrap();
                if exists|k: int| 0 <= k < i + 1 && apps@[k].pid == fp {
                    let k = choose|k: int| 0 <= k < i + 1 && apps@[k].pid == fp;
                    assert(k < i);
                }
            }
        }
        let mut j: usize = 0;
        while j < app.windows.len()
            invariant
                j <= app.windows@.len(),
                mru.wf(),
                forall|k: int| 0 <= k < i ==> has_pid(mru.entries@, #[trigger] apps@[k].pid),
                j > 0 ==> has_pid(mru.entries@, app.pid),
                frontmost_pid == Some(app.pid) ==> has_pid(mru.entries@, app.pid),
                windows_present(mru.entries@, apps@, i as int),
                placeholders_present(mru.entries@, apps@, i as int, frontmost_pid),
                forall|w: int|
                    0 <= w < j && app.windows@[w].window_id != 0 ==> has_id(
                        mru.entries@,
                        WindowIdentity { pid: app.pid, window_id: #[trigger] app.windows@[w].window_id },
                    ),
                (frontmost_pid matches Some(fp) && focus_id(focused) matches Some(w) && exists|k: int|
                    0 <= k < i + 1 && apps@[k].pid == fp) ==> has_known(
                    mru.entries@,
                    WindowIdentity { pid: frontmost_pid.unwrap(), window_id: focus_id(focused).unwrap() },
                ),
                app == apps@[i as int],
            decreases app.windows@.len() - j,
        {
            let ghost prev = mru.entries@;
            let w = &app.windows[j];
            mru.add_enumerated_window_to_mru(app.pid, app.bundle_id.as_str(), w);
            proof {
                if mru.entries@ != prev {
                    assert(mru.entries@.drop_last() =~= prev);
                    assert(mru.entries@[mru.entries@.len() - 1].identity == (WindowIdentity {
                        pid: app.pid,
                        window_id: w.window_id,
                    }));
                }
                lemma_grow_keeps(prev, mru.entries@);
                lemma_has_pid_grows(prev, mru.entries@, apps@, i as int, app.pid, w.window_id);
            }
            j = j + 1;
        }
        if app.windows.len() == 0 && frontmost_pid != Some(app.pid) {
            let ghost prev = mru.entries@;
            mru.add_app_to_mru_as_guess(app.pid, app.bundle_id.as_str(), app.name.as_str());
            proof {
                if mru.entries@ != prev {
                    assert(mru.entries@.drop_last() =~= prev);
                    assert(mru.entries@[mru.entries@.len() - 1].identity == (WindowIdentity {
                        pid: app.pid,
                        window_id: 0,
                    }));
                }
                lemma_grow_keeps(prev, mru.entries@);
                lemma_has_pid_grows(prev, mru.entries@, apps@, i as int, app.pid, 0);
            }
        }
        i = i + 1;
    }
}

/// A Known entry for `id` is present.
pub open spec fn has_known(s: Seq<MruWindowEntry>, id: WindowIdentity) -> bool {
    exists|k: int| 0 <= k < s.len() && s[k].identity == id && s[k].activation_state == ActivationState::Known
}

/// An entry a focus update for `id` does not supersede stays, as it is.
proof fn lemma_known_survives(s: Seq<MruWindowEntry>, id: WindowIdentity, k0: int)
    requires
        0 <= k0 < s.len(),
        !superseded(s[k0], id),
    ensures
        exists|k: int| 0 <= k < without_superseded(s, id).len() && without_superseded(s, id)[k] == s[k0],
    decreases s.len(),
{
    let q = s.drop_last();
    let t = without_superseded(q, id);
    if k0 == s.len() - 1 {
        assert(without_superseded(s, id) == t.push(s.last()));
        assert(without_superseded(s, id)[t.len() as int] == s[k0]);
    } else {
        assert(q[k0] == s[k0]);
        lemma_known_survives(q, id, k0);
        let j = choose|j: int| 0 <= j < t.len() && t[j] == q[k0];
        if !superseded(s.last(), id) {
            assert(without_superseded(s, id) == t.push(s.last()));
            assert(without_superseded(s, id)[j] == t[j]);
        } else {
            assert(without_superseded(s, id) == t);
        }
    }
}

/// An entry a focus update for `id` does not supersede stays.
proof fn lemma_unsuperseded_survives(s: Seq<MruWindowEntry>, id: WindowIdentity, id2: WindowIdentity)
    requires
        has_id(s, id2),
        !(id2.pid == id.pid && id2.window_id == 0),
        id2 != id,
    ensures
        has_id(without_superseded(s, id), id2),
    decreases s.len(),
{
    let q = s.drop_last();
    let t = without_superseded(q, id);
    if s.last().identity == id2 {
        assert(without_superseded(s, id) == t.push(s.last()));
        assert(without_superseded(s, id)[t.len() as int].identity == id2);
    } else {
        let k = choose|k: int| 0 <= k < s.len() && s[k].identity == id2;
        assert(k < s.len() - 1);
        assert(q[k] == s[k]);
        lemma_unsuperseded_survives(q, id, id2);
        let j = choose|j: int| 0 <= j < t.len() && t[j].identity == id2;
        if !superseded(s.last(), id) {
            assert(without_superseded(s, id)[j] == t[j]);
        }
    }
}

/// Appending an entry, or leaving the stack alone, keeps every entry.
proof fn lemma_grow_keeps(prev: Seq<MruWindowEntry>, next: Seq<MruWindowEntry>)
    requires
        next == prev || (next.len() == prev.len() + 1 && next.drop_last() == prev),
    ensures
        forall|id: WindowIdentity| has_id(prev, id) ==> has_id(next, id),
        forall|id: WindowIdentity| has_known(prev, id) ==> has_known(next, id),
{
    assert forall|id: WindowIdentity| has_id(prev, id) implies has_id(next, id) by {
        let k = choose|k: int| 0 <= k < prev.len() && prev[k].identity == id;
        if next != prev {
            assert(next[k] == next.drop_last()[k]);
        }
    }
    assert forall|id: WindowIdentity| has_known(prev, id) implies has_known(next, id) by {
        let k = choose|k: int| 0 <= k < prev.len() && prev[k].identity == id && prev[k].activation_state
            == ActivationState::Known;
        if next != prev {
            assert(next[k] == next.drop_last()[k]);
        }
    }
}

proof fn lemma_other_pid_survives(s: Seq<MruWindowEntry>, id: WindowIdentity, p: u32)
    requires
        has_pid(s, p),
        p != id.pid,
    ensures
        has_pid(without_superseded(s, id), p),
    decreases s.len(),
{
    let q = s.drop_last();
    let t = without_superseded(q, id);
    if s.last().identity.pid == p {
        assert(!superseded(s.last(), id));
        assert(without_superseded(s, id) == t.push(s.last()));
        assert(without_superseded(s, id)[t.len() as int].identity.pid == p);
    } else {
        let k = choose|k: int| 0 <= k < s.len() && s[k].identity.pid == p;
        assert(k < s.len() - 1);
        assert(q[k] == s[k]);
        lemma_other_pid_survives(q, id, p);
        let j = choose|j: int| 0 <= j < t.len() && t[j].identity.pid == p;
        if !superseded(s.last(), id) {
            assert(without_superseded(s, id)[j] == t[j]);
        }
    }
}

/// Adding an entry (or finding it present) keeps every process represented
/// and represents the added one.
proof fn lemma_has_pid_grows(
    prev: Seq<MruWindowEntry>,
    next: Seq<MruWindowEntry>,
    apps: Seq<RunningApp>,
    i: int,
    pid: u32,
    window_id: u32,
)
    requires
        next == prev || (next.drop_last() == prev && next.len() == prev.len() + 1 && next.last().identity == (
        WindowIdentity { pid, window_id })),
        next == prev ==> has_id(prev, WindowIdentity { pid, window_id }) || has_pid(prev, pid),
    ensures
        forall|p: u32| has_pid(prev, p) ==> has_pid(next, p),
        has_pid(next, pid),
{
    assert forall|p: u32| has_pid(prev, p) implies has_pid(next, p) by {
        let k = choose|k: int| 0 <= k < prev.len() && prev[k].identity.pid == p;
        if next != prev {
            assert(next[k] == next.drop_last()[k]);
        }
    }
    if next == prev {
        if has_id(prev, WindowIdentity { pid, window_id }) {
            let k = choose|k: int| 0 <= k < prev.len() && prev[k].identity == (WindowIdentity { pid, window_id });
            assert(prev[k].identity.pid == pid);
        }
    } else {
        assert(next[next.len() - 1].identity.pid == pid);
    }
}

/// A focus update never leaves two entries for one window: the new entry
/// in front of the old stack without its superseded entries has unique
/// identities whenever the old stack had.
pub proof fn lemma_mru_unique_after_update(old_entries: Seq<MruWindowEntry>, e: MruWindowEntry)
    requires
        unique_ids(old_entries),
        e.identity.window_id != 0,
    ensures
        unique_ids(seq![e] + without_superseded(old_entries, e.identity)),
{
    lemma_without_superseded(old_entries, e.identity);
    let t = without_superseded(old_entries, e.identity);
    let o = seq![e] + t;
    assert forall|a: int, b: int| 0 <= a < o.len() && 0 <= b < o.len() && a != b implies o[a].identity
        != o[b].identity by {
        if a == 0 {
            assert(o[b] == t[b - 1]);
        } else if b == 0 {
            assert(o[a] == t[a - 1]);
        } else {
            assert(o[a] == t[a - 1]);
            assert(o[b] == t[b - 1]);
        }
    }
}

proof fn lemma_without_superseded(s: Seq<MruWindowEntry>, id: WindowIdentity)
    requires
        unique_ids(s),
    ensures
        unique_ids(without_superseded(s, id)),
        sub_of(without_superseded(s, id), s),
        forall|k: int|
            0 <= k < without_superseded(s, id).len() ==> !superseded(#[trigger] without_superseded(s, id)[k], id),
    decreases s.len(),
{
    if s.len() > 0 {
        let p = s.drop_last();
        assert(unique_ids(p));
        lemma_without_superseded(p, id);
        assert(s == p.push(s.last()));
        if superseded(s.last(), id) {
            lemma_sub_of_push(without_superseded(p, id), p, s.last());
        } else {
            lemma_keep_push(without_superseded(p, id), p, s.last());
        }
    }
}

} // verus!
