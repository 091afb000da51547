//! The runtime Form: key bindings to layouts and display moves, fractional
//! pane realisation, and the layout session that cycles through panes.
use vstd::prelude::*;
use crate::conditions::{DisplayProps, space_holds, space_matches_display};
use crate::flatten::{MAX_INCLUDE_DEPTH, flatten_shape, flatten_shape_tree, frames_wf, pane_wf, unit_pane, unit_square};
use crate::validate::{form_valid, violations};
use crate::parse::{form_accepts, form_items, top_items};
use crate::xml::doc_tokens;
use crate::display::{corrected_height, design_height, is_max_inset, max_bottom_inset};
use crate::model::{
    DisplayMoveTarget, MirrorMode, ParsedDisplayQuirk, ParsedForm, ParsedFrame, ParsedLayout, ParsedLayoutAction,
    ParsedPane, ParsedSpace, Platform, TraverseOrder, find_last, find_layout, find_space, last_named, layout_names,
    space_names,
};
use crate::order::{
    PaneFrac, all_wf, apply_mirroring_fracs, fits_unit, frac_of, mirror_seq, sort_pane_list_fracs, sort_spec,
    within_unit,
};
use crate::text::str_eq;

verus! {

/// A key bound to a layout, with its traverse order and mirror modes.
#[derive(Debug, Clone)]
pub struct LayoutBinding {
    pub key: String,
    /// Position of the layout in the Form's layout table.
    pub layout: usize,
    pub traverse: TraverseOrder,
    pub mirror_x: MirrorMode,
    pub mirror_y: MirrorMode,
}

/// A key bound to a display move.
#[derive(Debug, Clone)]
pub struct MoveBinding {
    pub key: String,
    pub target: DisplayMoveTarget,
}

/// A display quirk of the running platform.
#[derive(Debug, Clone)]
pub struct RuntimeDisplayQuirk {
    pub name_contains: String,
    pub min_bottom_inset: u32,
}

/// The key being cycled and the index of the pane it gives next.
#[derive(Debug, Clone)]
pub struct LayoutSession {
    pub current_key: String,
    pub pane_index: usize,
}

/// The runtime configuration. Where a key is bound twice the later binding wins.
#[derive(Debug)]
pub struct Form {
    pub layouts: Vec<ParsedLayout>,
    pub bindings: Vec<LayoutBinding>,
    pub spaces: Vec<ParsedSpace>,
    pub frames: Vec<ParsedFrame>,
    pub measures: Vec<(String, u32)>,
    pub quirks: Vec<RuntimeDisplayQuirk>,
    pub display_moves: Vec<MoveBinding>,
    pub layout_session: Option<LayoutSession>,
}

pub open spec fn binding_keys(bs: Seq<LayoutBinding>) -> Seq<Seq<char>> {
    bs.map_values(|b: LayoutBinding| b.key@)
}

pub open spec fn move_keys(ms: Seq<MoveBinding>) -> Seq<Seq<char>> {
    ms.map_values(|m: MoveBinding| m.key@)
}

/// Every frame pane and every leaf in lowest terms with a positive denominator.
pub open spec fn leaves_in_unit(leaves: Seq<ParsedPane>) -> bool {
    forall|k: int|
        0 <= k < leaves.len() ==> fits_unit(#[trigger] leaves[k].x, leaves[k].width) && fits_unit(
            leaves[k].y,
            leaves[k].height,
        )
}

/// A binding as plain values: key, layout index, traverse, mirrors.
pub type BindingView = (Seq<char>, usize, TraverseOrder, MirrorMode, MirrorMode);

pub open spec fn binding_view(b: LayoutBinding) -> BindingView {
    (b.key@, b.layout, b.traverse, b.mirror_x, b.mirror_y)
}

/// The bindings the layout actions give, in order: one per action whose
/// layout is defined, pointing at that layout (the last of its name).
pub open spec fn bindings_of(actions: Seq<ParsedLayoutAction>, layouts: Seq<ParsedLayout>) -> Seq<BindingView>
    decreases actions.len(),
{
    if actions.len() == 0 {
        Seq::empty()
    } else {
        let prev = bindings_of(actions.drop_last(), layouts);
        let a = actions.last();
        match find_last(layout_names(layouts), a.layout@) {
            Some(li) => prev.push((a.key@, li as usize, a.traverse, a.mirror_x, a.mirror_y)),
            None => prev,
        }
    }
}

/// The quirks of `platform`, in order, as name and inset.
pub open spec fn quirks_of(qs: Seq<ParsedDisplayQuirk>, platform: Platform) -> Seq<(Seq<char>, u32)>
    decreases qs.len(),
{
    if qs.len() == 0 {
        Seq::empty()
    } else {
        let prev = quirks_of(qs.drop_last(), platform);
        if qs.last().platform == platform {
            prev.push((qs.last().name_contains@, qs.last().min_bottom_inset))
        } else {
            prev
        }
    }
}

/// `f` is the runtime form built from `parsed` for `platform`: its tables,
/// the bindings of its layout actions, its moves and its platform's quirks.
pub open spec fn built_from(f: Form, parsed: ParsedForm, platform: Platform) -> bool {
    &&& f.layouts == parsed.layouts
    &&& f.frames == parsed.frames
    &&& f.spaces == parsed.spaces
    &&& f.measures == parsed.measures
    &&& f.layout_session is None
    &&& f.display_moves@.len() == parsed.display_moves@.len()
    &&& forall|k: int|
        0 <= k < f.display_moves@.len() ==> (#[trigger] f.display_moves@[k]).key@ == parsed.display_moves@[k].key@
            && f.display_moves@[k].target == parsed.display_moves@[k].target
    &&& f.bindings@.map_values(|b: LayoutBinding| binding_view(b)) == bindings_of(
        parsed.layout_actions@,
        parsed.layouts@,
    )
    &&& f.quirks@.map_values(|q: RuntimeDisplayQuirk| (q.name_contains@, q.min_bottom_inset)) == quirks_of(
        parsed.display_quirks@,
        platform,
    )
}

impl Form {
    /// Bindings point into the layout table and frame panes are well formed.
    pub open spec fn wf(&self) -> bool {
        &&& forall|i: int| 0 <= i < self.bindings@.len() ==> (#[trigger] self.bindings@[i]).layout
            < self.layouts@.len()
        &&& frames_wf(self.frames@)
    }

    /// The binding in force for `key`.
    pub open spec fn binding(&self, key: Seq<char>) -> Option<LayoutBinding> {
        match find_last(binding_keys(self.bindings@), key) {
            Some(i) => Some(self.bindings@[i]),
            None => None,
        }
    }

    /// The display-move target in force for `key`.
    pub open spec fn move_target(&self, key: Seq<char>) -> Option<DisplayMoveTarget> {
        match find_last(move_keys(self.display_moves@), key) {
            Some(i) => Some(self.display_moves@[i].target),
            None => None,
        }
    }

    /// Whether the layout's space (if it names one that is defined) selects the display.
    pub open spec fn space_allows(&self, layout: ParsedLayout, d: DisplayProps) -> bool {
        match layout.space {
            None => true,
            Some(name) => match find_last(space_names(self.spaces@), name@) {
                None => true,
                Some(si) => space_holds(self.measures@, self.spaces@[si], d),
            },
        }
    }

    /// The leaves of the layout bound to `key`, as display fractions, with
    /// the binding; `None` when the key is unbound, the space rejects the
    /// display, realisation fails, no leaf survives, or a leaf leaves the
    /// unit square.
    pub open spec fn placed_leaves(&self, key: Seq<char>, d: DisplayProps) -> Option<(Seq<PaneFrac>, LayoutBinding)> {
        match self.binding(key) {
            None => None,
            Some(b) => {
                let layout = self.layouts@[b.layout as int];
                if !self.space_allows(layout, d) {
                    None
                } else {
                    match flatten_shape(self.frames@, self.layouts@, layout.root_shape, d, unit_pane(), MAX_INCLUDE_DEPTH as nat) {
                        None => None,
                        Some(leaves) => if leaves.len() == 0 || !leaves_in_unit(leaves) {
                            None
                        } else {
                            Some((leaves.map_values(|p: ParsedPane| frac_of(p)), b))
                        },
                    }
                }
            },
        }
    }

    /// The panes `key` cycles through on display `d`: the leaves sorted into
    /// cycling order, then mirrored as configured, so that mirroring turns
    /// the whole cycle over (with `mirrorX` flipped the top-right pane of a
    /// grid comes first); `None` also where a mirrored part does not fit.
    pub open spec fn pane_list(&self, key: Seq<char>, d: DisplayProps) -> Option<Seq<PaneFrac>> {
        match self.placed_leaves(key, d) {
            None => None,
            Some((l, b)) => mirror_seq(sort_spec(l, b.traverse), b.mirror_x, b.mirror_y),
        }
    }

    /// The index `get_next_pane` serves for `key` given the session.
    pub open spec fn next_index(session: Option<LayoutSession>, key: Seq<char>, len: nat) -> nat {
        match session {
            Some(s) => if s.current_key@ == key {
                (s.pane_index as nat) % len
            } else {
                0
            },
            None => 0,
        }
    }

    /// The runtime form of a parsed configuration for `platform`: every
    /// layout action whose layout is defined becomes a binding, every display
    /// move a move binding, and only the platform's quirks are kept.
    pub fn from_parsed(parsed: ParsedForm, platform: Platform) -> (r: Form)
        requires
            parsed.wf(),
        ensures
            r.wf(),
            r.layouts == parsed.layouts,
            r.frames == parsed.frames,
            r.spaces == parsed.spaces,
            r.measures == parsed.measures,
            r.layout_session is None,
            r.display_moves@.len() == parsed.display_moves@.len(),
            forall|k: int|
                0 <= k < r.display_moves@.len() ==> (#[trigger] r.display_moves@[k]).key@
                    == parsed.display_moves@[k].key@ && r.display_moves@[k].target
                    == parsed.display_moves@[k].target,
            forall|k: int|
                0 <= k < r.bindings@.len() ==> (#[trigger] r.bindings@[k]).layout < r.layouts@.len(),
            r.bindings@.map_values(|b: LayoutBinding| binding_view(b)) == bindings_of(
                parsed.layout_actions@,
                parsed.layouts@,
            ),
            r.quirks@.map_values(|q: RuntimeDisplayQuirk| (q.name_contains@, q.min_bottom_inset)) == quirks_of(
                parsed.display_quirks@,
                platform,
            ),
    {
        let ParsedForm { measures, display_quirks, spaces, frames, layouts, layout_actions, display_moves } = parsed;
        let mut bindings: Vec<LayoutBinding> = Vec::new();
        let mut i: usize = 0;
        while i < layout_actions.len()
            invariant
                i <= layout_actions@.len(),
                forall|k: int| 0 <= k < bindings@.len() ==> (#[trigger] bindings@[k]).layout < layouts@.len(),
                bindings@.map_values(|b: LayoutBinding| binding_view(b)) == bindings_of(
                    layout_actions@.subrange(0, i as int),
                    layouts@,
                ),
            decreases layout_actions@.len() - i,
        {
            let a = &layout_actions[i];
            proof {
                assert(layout_actions@.subrange(0, i + 1).drop_last() =~= layout_actions@.subrange(0, i as int));
                assert(layout_actions@.subrange(0, i + 1).last() == layout_actions@[i as int]);
            }
            let ghost before = bindings@;
            if let Some(li) = find_layout(&layouts, a.layout.as_str()) {
                bindings.push(
                    LayoutBinding {
                        key: a.key.clone(),
                        layout: li,
                        traverse: a.traverse,
                        mirror_x: a.mirror_x,
                        mirror_y: a.mirror_y,
                    },
                );
                assert(bindings@.map_values(|b: LayoutBinding| binding_view(b)) =~= before.map_values(
                    |b: LayoutBinding| binding_view(b),
                ).push((a.key@, li, a.traverse, a.mirror_x, a.mirror_y)));
            }
            i = i + 1;
        }
        assert(layout_actions@.subrange(0, layout_actions@.len() as int) =~= layout_actions@);
        let mut moves: Vec<MoveBinding> = Vec::new();
        let mut j: usize = 0;
        while j < display_moves.len()
            invariant
                j <= display_moves@.len(),
                moves@.len() == j,
                forall|k: int|
                    0 <= k < j ==> (#[trigger] moves@[k]).key@ == display_moves@[k].key@ && moves@[k].target
                        == display_moves@[k].target,
            decreases display_moves@.len() - j,
        {
            let d = &display_moves[j];
            moves.push(MoveBinding { key: d.key.clone(), target: d.target });
            j = j + 1;
        }
        let mut quirks: Vec<RuntimeDisplayQuirk> = Vec::new();
        let mut q: usize = 0;
        while q < display_quirks.len()
            invariant
                q <= display_quirks@.len(),
                quirks@.map_values(|x: RuntimeDisplayQuirk| (x.name_contains@, x.min_bottom_inset)) == quirks_of(
                    display_quirks@.subrange(0, q as int),
                    platform,
                ),
            decreases display_quirks@.len() - q,
        {
            let dq = &display_quirks[q];
            proof {
                assert(display_quirks@.subrange(0, q + 1).drop_last() =~= display_quirks@.subrange(0, q as int));
                assert(display_quirks@.subrange(0, q + 1).last() == display_quirks@[q as int]);
            }
            let ghost before = quirks@;
            if dq.platform == platform {
                quirks.push(
                    RuntimeDisplayQuirk { name_contains: dq.name_contains.clone(), min_bottom_inset: dq.min_bottom_inset },
                );
                assert(quirks@.map_values(|x: RuntimeDisplayQuirk| (x.name_contains@, x.min_bottom_inset))
                    =~= before.map_values(|x: RuntimeDisplayQuirk| (x.name_contains@, x.min_bottom_inset)).push(
                    (dq.name_contains@, dq.min_bottom_inset),
                ));
            }
            q = q + 1;
        }
        assert(display_quirks@.subrange(0, display_quirks@.len() as int) =~= display_quirks@);
        Form {
            layouts,
            bindings,
            spaces,
            frames,
            measures,
            quirks,
            display_moves: moves,
            layout_session: None,
        }
    }

    /// Validates a parsed configuration and builds its runtime form: `Ok`
    /// exactly when it is valid, else one message per violation.
    pub fn from_checked(parsed: ParsedForm, platform: Platform) -> (r: Result<Form, Vec<String>>)
        requires
            parsed.wf(),
        ensures
            r is Ok <==> form_valid(parsed),
            r matches Ok(f) ==> f.wf() && built_from(f, parsed, platform),
            r matches Err(errors) ==> errors@.len() == violations(parsed) && errors@.len() > 0,
    {
        match parsed.validate() {
            Ok(()) => Ok(Self::from_parsed(parsed, platform)),
            Err(errors) => Err(errors),
        }
    }

    /// Parses, validates and builds a configuration; the messages of a
    /// parse failure or of every validation problem otherwise.
    pub fn from_config(xml: &str, platform: Platform) -> (r: Result<Form, Vec<String>>)
        requires
            xml@.len() < usize::MAX,
        ensures
            r matches Ok(f) ==> f.wf() && f.layout_session is None && exists|p: ParsedForm|
                p.wf() && form_valid(p) && built_from(f, p, platform) && form_items(p) == top_items(doc_tokens(xml@), 0, false),
            r is Ok ==> form_accepts(doc_tokens(xml@), 0, false),
            !form_accepts(doc_tokens(xml@), 0, false) ==> r is Err,
            r matches Err(errors) ==> errors@.len() > 0,
    {
        let parsed = match ParsedForm::from_xml(xml) {
            Ok(p) => p,
            Err(m) => {
                let mut errors: Vec<String> = Vec::new();
                errors.push(m);
                return Err(errors);
            },
        };
        let ghost p = parsed;
        let r = Self::from_checked(parsed, platform);
        proof {
            if r is Ok {
                assert(p.wf() && form_valid(p) && built_from(r->Ok_0, p, platform) && form_items(p) == top_items(doc_tokens(xml@), 0, false));
            }
        }
        r
    }

    /// The design height of a display: its visible height, less the menu bar
    /// where the visible frame does not exclude it (visible and full frames
    /// share their origin), less the largest bottom
    /// inset among the quirks matching its name.
    pub fn design_height(
        &self,
        name: &str,
        visible_height: u32,
        visible_origin_y: i32,
        full_origin_y: i32,
        menu_bar_height: u32,
    ) -> (r: u32)
        ensures
            exists|inset: u32|
                is_max_inset(self.quirks@, name@, inset) && r == corrected_height(
                    visible_height,
                    visible_origin_y,
                    full_origin_y,
                    menu_bar_height,
                    inset,
                ),
    {
        let inset = max_bottom_inset(&self.quirks, name);
        design_height(visible_height, visible_origin_y, full_origin_y, menu_bar_height, inset)
    }

    /// A Form with nothing bound.
    pub fn empty() -> (r: Form)
        ensures
            r.wf(),
            r.bindings@.len() == 0,
            r.display_moves@.len() == 0,
            r.layout_session is None,
    {
        Form {
            layouts: Vec::new(),
            bindings: Vec::new(),
            spaces: Vec::new(),
            frames: Vec::new(),
            measures: Vec::new(),
            quirks: Vec::new(),
            display_moves: Vec::new(),
            layout_session: None,
        }
    }

    fn find_binding(&self, key: &str) -> (r: Option<usize>)
        ensures
            match r {
                Some(i) => find_last(binding_keys(self.bindings@), key@) == Some(i as int) && i
                    < self.bindings@.len(),
                None => find_last(binding_keys(self.bindings@), key@) is None,
            },
    {
        let mut i: usize = self.bindings.len();
        while i > 0
            invariant
                i <= self.bindings@.len(),
                find_last(binding_keys(self.bindings@), key@) == last_named(
                    binding_keys(self.bindings@),
                    key@,
                    i as int,
                ),
            decreases i,
        {
            if str_eq(self.bindings[i - 1].key.as_str(), key) {
                return Some(i - 1);
            }
            i = i - 1;
        }
        None
    }

    fn find_move(&self, key: &str) -> (r: Option<usize>)
        ensures
            match r {
                Some(i) => find_last(move_keys(self.display_moves@), key@) == Some(i as int) && i
                    < self.display_moves@.len(),
                None => find_last(move_keys(self.display_moves@), key@) is None,
            },
    {
        let mut i: usize = self.display_moves.len();
        while i > 0
            invariant
                i <= self.display_moves@.len(),
                find_last(move_keys(self.display_moves@), key@) == last_named(
                    move_keys(self.display_moves@),
                    key@,
                    i as int,
                ),
            decreases i,
        {
            if str_eq(self.display_moves[i - 1].key.as_str(), key) {
                return Some(i - 1);
            }
            i = i - 1;
        }
        None
    }

    /// Whether `key` is bound to a layout.
    pub fn has_layout_action(&self, key: &str) -> (r: bool)
        ensures
            r == self.binding(key@) is Some,
    {
        self.find_binding(key).is_some()
    }

    /// Whether `key` is bound to a display move.
    pub fn has_display_move(&self, key: &str) -> (r: bool)
        ensures
            r == self.move_target(key@) is Some,
    {
        self.find_move(key).is_some()
    }

    /// Whether the layout's space allows the display.
    fn layout_space_allows(&self, li: usize, display: &DisplayProps) -> (r: bool)
        requires
            li < self.layouts@.len(),
        ensures
            r == self.space_allows(self.layouts@[li as int], *display),
    {
        match &self.layouts[li].space {
            None => true,
            Some(name) => match find_space(&self.spaces, name.as_str()) {
                None => true,
                Some(si) => space_matches_display(&self.measures, &self.spaces[si], display),
            },
        }
    }

    /// The leaves as display fractions, where every one lies in the unit square.
    fn leaves_to_fracs(leaves: &Vec<ParsedPane>) -> (r: Option<Vec<PaneFrac>>)
        requires
            forall|k: int| 0 <= k < leaves@.len() ==> pane_wf(#[trigger] leaves@[k]),
        ensures
            match r {
                Some(v) => leaves_in_unit(leaves@) && v@ == leaves@.map_values(|p: ParsedPane| frac_of(p))
                    && all_wf(v@),
                None => !leaves_in_unit(leaves@),
            },
    {
        let mut out: Vec<PaneFrac> = Vec::new();
        let mut i: usize = 0;
        while i < leaves.len()
            invariant
                i <= leaves@.len(),
                forall|k: int| 0 <= k < leaves@.len() ==> pane_wf(#[trigger] leaves@[k]),
                out@ == leaves@.subrange(0, i as int).map_values(|p: ParsedPane| frac_of(p)),
                all_wf(out@),
                leaves_in_unit(leaves@.subrange(0, i as int)),
            decreases leaves@.len() - i,
        {
            let p = leaves[i];
            if !within_unit(&p.x, &p.width) || !within_unit(&p.y, &p.height) {
                proof {
                    assert(!(fits_unit(leaves@[i as int].x, leaves@[i as int].width) && fits_unit(
                        leaves@[i as int].y,
                        leaves@[i as int].height,
                    )));
                }
                return None;
            }
            out.push(PaneFrac { x: p.x, y: p.y, width: p.width, height: p.height });
            proof {
                assert(leaves@.subrange(0, i + 1).map_values(|p: ParsedPane| frac_of(p)) =~= leaves@.subrange(
                    0,
                    i as int,
                ).map_values(|p: ParsedPane| frac_of(p)).push(frac_of(p)));
                assert forall|k: int| 0 <= k < i + 1 implies fits_unit(
                    #[trigger] leaves@.subrange(0, i + 1)[k].x,
                    leaves@.subrange(0, i + 1)[k].width,
                ) && fits_unit(leaves@.subrange(0, i + 1)[k].y, leaves@.subrange(0, i + 1)[k].height) by {
                    if k < i {
                        assert(leaves@.subrange(0, i + 1)[k] == leaves@.subrange(0, i as int)[k]);
                    }
                }
            }
            i = i + 1;
        }
        assert(leaves@.subrange(0, leaves@.len() as int) =~= leaves@);
        Some(out)
    }

    /// The fractional panes for `key` on `display`, in cycling order: the
    /// layout's leaves sorted by area descending and then by centre along the
    /// traverse order, then mirrored as configured.
    pub fn panes_for_action(&self, key: &str, display: &DisplayProps) -> (r: Option<Vec<PaneFrac>>)
        requires
            self.wf(),
        ensures
            match r {
                Some(v) => self.pane_list(key@, *display) == Some(v@),
                None => self.pane_list(key@, *display) is None,
            },
            r matches Some(v) ==> v@.len() > 0 && all_wf(v@),
    {
        let bi = match self.find_binding(key) {
            Some(bi) => bi,
            None => return None,
        };
        let b = &self.bindings[bi];
        let li = b.layout;
        if !self.layout_space_allows(li, display) {
            return None;
        }
        let unit = unit_square();
        let leaves = match flatten_shape_tree(
            &self.frames,
            &self.layouts,
            &self.layouts[li].root_shape,
            display,
            &unit,
            MAX_INCLUDE_DEPTH,
        ) {
            Some(l) => l,
            None => return None,
        };
        if leaves.len() == 0 {
            return None;
        }
        let fracs = match Self::leaves_to_fracs(&leaves) {
            Some(f) => f,
            None => return None,
        };
        let sorted = sort_pane_list_fracs(&fracs, b.traverse);
        apply_mirroring_fracs(&sorted, b.mirror_x, b.mirror_y)
    }

    /// The next pane for `key`: continuing the session of the same key at its
    /// stored index (modulo the pane count), else starting at index 0. The
    /// session then stores the following index. Nothing changes where the
    /// key gives no panes.
    pub fn get_next_pane(&mut self, key: &str, display: &DisplayProps) -> (r: Option<(PaneFrac, usize)>)
        requires
            old(self).wf(),
        ensures
            final(self).wf(),
            final(self).layouts == old(self).layouts,
            final(self).bindings == old(self).bindings,
            final(self).spaces == old(self).spaces,
            final(self).frames == old(self).frames,
            final(self).measures == old(self).measures,
            final(self).display_moves == old(self).display_moves,
            match old(self).pane_list(key@, *display) {
                None => r is None && final(self).layout_session == old(self).layout_session,
                Some(list) => {
                    let idx = Self::next_index(old(self).layout_session, key@, list.len());
                    &&& r == Some((list[idx as int], idx as usize))
                    &&& final(self).layout_session matches Some(s) && s.current_key@ == key@
                        && s.pane_index == (idx + 1) % list.len()
                },
            },
    {
        let list = match self.panes_for_action(key, display) {
            Some(l) => l,
            None => return None,
        };
        let n = list.len();
        let idx = match &self.layout_session {
            Some(s) => if str_eq(s.current_key.as_str(), key) {
                s.pane_index % n
            } else {
                0
            },
            None => 0,
        };
        let pane = list[idx];
        let next = (idx + 1) % n;
        self.layout_session = Some(LayoutSession { current_key: String::from_str(key), pane_index: next });
        Some((pane, idx))
    }

    /// Ends the layout session (the chord was released).
    pub fn reset_layout_session(&mut self)
        ensures
            final(self).layout_session is None,
            final(self).layouts == old(self).layouts,
            final(self).bindings == old(self).bindings,
            final(self).spaces == old(self).spaces,
            final(self).frames == old(self).frames,
            final(self).measures == old(self).measures,
            final(self).display_moves == old(self).display_moves,
    {
        self.layout_session = None;
    }

    /// The display a move bound to `key` goes to from display `current` of
    /// `total`; `None` when the key is unbound or the target is out of range.
    pub fn execute_display_move(&self, key: &str, current_display_index: usize, total_displays: usize) -> (r:
        Option<usize>)
        ensures
            r == match self.move_target(key@) {
                Some(t) => move_target_index(t, current_display_index, total_displays),
                None => None,
            },
    {
        match self.find_move(key) {
            Some(i) => execute_move(self.display_moves[i].target, current_display_index, total_displays),
            None => None,
        }
    }
}

/// Where a move goes from display `i` of `n`: next or previous, wrapping
/// around if configured, or a fixed index; `None` when out of range.
pub open spec fn move_target_index(t: DisplayMoveTarget, i: usize, n: usize) -> Option<usize> {
    match t {
        DisplayMoveTarget::Next { wrap } => if i + 1 < n {
            Some((i + 1) as usize)
        } else if wrap && n > 0 {
            Some(0)
        } else {
            None
        },
        DisplayMoveTarget::Prev { wrap } => if i > 0 && i - 1 < n {
            Some((i - 1) as usize)
        } else if wrap && n > 0 {
            Some((n - 1) as usize)
        } else {
            None
        },
        DisplayMoveTarget::Index(k) => if k < n {
            Some(k)
        } else {
            None
        },
    }
}

/// Index arithmetic of a display move.
pub fn execute_move(target: DisplayMoveTarget, current: usize, total: usize) -> (r: Option<usize>)
    ensures
        r == move_target_index(target, current, total),
{
    match target {
        DisplayMoveTarget::Next { wrap } => {
            if current < total && current + 1 < total {
                Some(current + 1)
            } else if wrap && total > 0 {
                Some(0)
            } else {
                None
            }
        },
        DisplayMoveTarget::Prev { wrap } => {
            if current > 0 && current - 1 < total {
                Some(current - 1)
            } else if wrap && total > 0 {
                Some(total - 1)
            } else {
                None
            }
        },
        DisplayMoveTarget::Index(k) => {
            if k < total {
                Some(k)
            } else {
                None
            }
        },
    }
}

/// Moving to the next display with wrap-around from display `i` of `n`
/// gives `(i + 1) mod n`; without wrap-around `i + 1` when it is in range,
/// else nothing. Moving to the previous display alike.
pub proof fn lemma_display_move_wrap(i: usize, n: usize)
    requires
        i < n,
    ensures
        move_target_index(DisplayMoveTarget::Next { wrap: true }, i, n) == Some(((i + 1) % (n as int)) as usize),
        move_target_index(DisplayMoveTarget::Next { wrap: false }, i, n) == (if i + 1 < n {
            Some((i + 1) as usize)
        } else {
            None
        }),
        move_target_index(DisplayMoveTarget::Prev { wrap: true }, i, n) == Some(((i + n - 1) % (n as int)) as usize),
        move_target_index(DisplayMoveTarget::Prev { wrap: false }, i, n) == (if i >= 1 {
            Some((i - 1) as usize)
        } else {
            None
        }),
{
    if i + 1 < n {
        vstd::arithmetic::div_mod::lemma_small_mod((i + 1) as nat, n as nat);
    } else {
        vstd::arithmetic::div_mod::lemma_mod_self_0(n as int);
    }
    if i >= 1 {
        vstd::arithmetic::div_mod::lemma_mod_add_multiples_vanish((i - 1) as int, n as int);
        vstd::arithmetic::div_mod::lemma_small_mod((i - 1) as nat, n as nat);
    } else {
        vstd::arithmetic::div_mod::lemma_small_mod((n - 1) as nat, n as nat);
    }
}

} // verus!
