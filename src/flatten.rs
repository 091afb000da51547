//! Flattening a shape tree into its leaf panes by exact scale-and-translate.
use vstd::prelude::*;
use crate::conditions::{DisplayProps, display_orientation, include_holds, orientation_of};
use crate::fraction::{Fraction, reduced_of};
use crate::model::{
    ParsedFrame, ParsedLayout, ParsedPane, ParsedShape, ShapeChild, find_frame, find_last, find_layout,
    frame_names, is_multi_frame, layout_names, multi_frame,
};

verus! {

/// How many nested layout references a realisation follows before it fails.
pub const MAX_INCLUDE_DEPTH: u32 = 16;

/// Lowest-terms sum, as `Fraction::add` computes it.
pub open spec fn frac_add(a: Fraction, b: Fraction) -> Option<Fraction> {
    reduced_of((a.num * b.den + b.num * a.den) as nat, (a.den * b.den) as nat)
}

/// Lowest-terms product, as `Fraction::mul` computes it.
pub open spec fn frac_mul(a: Fraction, b: Fraction) -> Option<Fraction> {
    reduced_of((a.num * b.num) as nat, (a.den * b.den) as nat)
}

pub open spec fn pane_wf(p: ParsedPane) -> bool {
    p.x.wf() && p.y.wf() && p.width.wf() && p.height.wf()
}

/// The unit square.
pub open spec fn unit_pane() -> ParsedPane {
    ParsedPane {
        x: Fraction::spec_zero(),
        y: Fraction::spec_zero(),
        width: Fraction::spec_one(),
        height: Fraction::spec_one(),
    }
}

/// `pane`, given relative to `parent`, in the parent's own coordinates:
/// `x = parent.x + parent.width * pane.x` and alike; `None` where a part
/// does not fit 32 bits.
pub open spec fn compose(parent: ParsedPane, pane: ParsedPane) -> Option<ParsedPane> {
    match (
        frac_mul(parent.width, pane.x),
        frac_mul(parent.height, pane.y),
        frac_mul(parent.width, pane.width),
        frac_mul(parent.height, pane.height),
    ) {
        (Some(wx), Some(hy), Some(w), Some(h)) => match (frac_add(parent.x, wx), frac_add(parent.y, hy)) {
            (Some(x), Some(y)) => Some(ParsedPane { x, y, width: w, height: h }),
            _ => None,
        },
        _ => None,
    }
}

/// All frame panes have positive denominators.
pub open spec fn frames_wf(frames: Seq<ParsedFrame>) -> bool {
    forall|i: int, j: int|
        0 <= i < frames.len() && 0 <= j < frames[i].panes@.len() ==> pane_wf(
            #[trigger] frames[i].panes@[j],
        )
}

/// The leaves of `shape` placed in `rect`; `None` when realisation fails
/// (a part out of range, or layout references nested deeper than `fuel`).
pub open spec fn flatten_shape(
    frames: Seq<ParsedFrame>,
    layouts: Seq<ParsedLayout>,
    shape: ParsedShape,
    d: DisplayProps,
    rect: ParsedPane,
    fuel: nat,
) -> Option<Seq<ParsedPane>>
    decreases fuel, shape, shape.children@.len() + 1,
{
    if shape.when_orientation matches Some(o) && o != orientation_of(d.width, d.height) {
        Some(Seq::empty())
    } else if shape.frame@ == multi_frame() {
        flatten_multi(frames, layouts, shape, d, fuel, shape.children@.len() as int)
    } else {
        match find_last(frame_names(frames), shape.frame@) {
            None => Some(Seq::empty()),
            Some(fi) => if frames[fi].panes@.len() != shape.children@.len() {
                Some(Seq::empty())
            } else {
                flatten_children(
                    frames,
                    layouts,
                    shape,
                    frames[fi].panes@,
                    d,
                    rect,
                    fuel,
                    shape.children@.len() as int,
                )
            },
        }
    }
}

/// The leaves of the first `i` top-level shapes of a joined layout, each on
/// the whole display.
pub open spec fn flatten_multi(
    frames: Seq<ParsedFrame>,
    layouts: Seq<ParsedLayout>,
    shape: ParsedShape,
    d: DisplayProps,
    fuel: nat,
    i: int,
) -> Option<Seq<ParsedPane>>
    decreases fuel, shape, if i > 0 { i } else { 0 },
{
    if i <= 0 || i > shape.children@.len() {
        Some(Seq::empty())
    } else {
        match flatten_multi(frames, layouts, shape, d, fuel, i - 1) {
            None => None,
            Some(prev) => match shape.children@[i - 1] {
                ShapeChild::Shape(cs) => match flatten_shape(frames, layouts, cs, d, unit_pane(), fuel) {
                    None => None,
                    Some(s) => Some(prev + s),
                },
                ShapeChild::Include(_) => Some(prev),
            },
        }
    }
}

/// The leaves of the first `i` children of `shape`, child `k` placed in
/// frame pane `k` of `rect`.
pub open spec fn flatten_children(
    frames: Seq<ParsedFrame>,
    layouts: Seq<ParsedLayout>,
    shape: ParsedShape,
    panes: Seq<ParsedPane>,
    d: DisplayProps,
    rect: ParsedPane,
    fuel: nat,
    i: int,
) -> Option<Seq<ParsedPane>>
    decreases fuel, shape, if i > 0 { i } else { 0 },
{
    if i <= 0 || i > shape.children@.len() || i > panes.len() {
        Some(Seq::empty())
    } else {
        match flatten_children(frames, layouts, shape, panes, d, rect, fuel, i - 1) {
            None => None,
            Some(prev) => match compose(rect, panes[i - 1]) {
                None => None,
                Some(abs) => match shape.children@[i - 1] {
                    ShapeChild::Shape(cs) => match flatten_shape(frames, layouts, cs, d, abs, fuel) {
                        None => None,
                        Some(s) => Some(prev + s),
                    },
                    ShapeChild::Include(inc) => if !include_holds(inc.condition, d) {
                        Some(prev)
                    } else {
                        match inc.layout {
                            None => Some(prev.push(abs)),
                            Some(name) => match find_last(layout_names(layouts), name@) {
                                None => Some(prev),
                                Some(li) => if fuel == 0 {
                                    None
                                } else {
                                    match flatten_shape(
                                        frames,
                                        layouts,
                                        layouts[li].root_shape,
                                        d,
                                        abs,
                                        (fuel - 1) as nat,
                                    ) {
                                        None => None,
                                        Some(s) => Some(prev + s),
                                    }
                                },
                            },
                        }
                    },
                },
            },
        }
    }
}

proof fn lemma_multi_none(
    frames: Seq<ParsedFrame>,
    layouts: Seq<ParsedLayout>,
    shape: ParsedShape,
    d: DisplayProps,
    fuel: nat,
    i: int,
    j: int,
)
    requires
        0 < i <= j <= shape.children@.len(),
        flatten_multi(frames, layouts, shape, d, fuel, i) is None,
    ensures
        flatten_multi(frames, layouts, shape, d, fuel, j) is None,
    decreases j - i,
{
    if i < j {
        lemma_multi_none(frames, layouts, shape, d, fuel, i, j - 1);
    }
}

proof fn lemma_children_none(
    frames: Seq<ParsedFrame>,
    layouts: Seq<ParsedLayout>,
    shape: ParsedShape,
    panes: Seq<ParsedPane>,
    d: DisplayProps,
    rect: ParsedPane,
    fuel: nat,
    i: int,
    j: int,
)
    requires
        0 < i <= j <= shape.children@.len(),
        j <= panes.len(),
        flatten_children(frames, layouts, shape, panes, d, rect, fuel, i) is None,
    ensures
        flatten_children(frames, layouts, shape, panes, d, rect, fuel, j) is None,
    decreases j - i,
{
    if i < j {
        lemma_children_none(frames, layouts, shape, panes, d, rect, fuel, i, j - 1);
    }
}

/// Places `pane` inside `parent`.
pub fn compose_pane(parent: &ParsedPane, pane: &ParsedPane) -> (r: Option<ParsedPane>)
    requires
        pane_wf(*parent),
        pane_wf(*pane),
    ensures
        r == compose(*parent, *pane),
        r matches Some(p) ==> pane_wf(p),
{
    let wx = match parent.width.mul(&pane.x) {
        Some(v) => v,
        None => return None,
    };
    let hy = match parent.height.mul(&pane.y) {
        Some(v) => v,
        None => return None,
    };
    let w = match parent.width.mul(&pane.width) {
        Some(v) => v,
        None => return None,
    };
    let h = match parent.height.mul(&pane.height) {
        Some(v) => v,
        None => return None,
    };
    let x = match parent.x.add(&wx) {
        Some(v) => v,
        None => return None,
    };
    let y = match parent.y.add(&hy) {
        Some(v) => v,
        None => return None,
    };
    Some(ParsedPane { x, y, width: w, height: h })
}

pub fn unit_square() -> (r: ParsedPane)
    ensures
        r == unit_pane(),
        pane_wf(r),
{
    ParsedPane { x: Fraction::zero(), y: Fraction::zero(), width: Fraction::one(), height: Fraction::one() }
}

/// Flattens `shape` placed in `rect`.
pub fn flatten_shape_tree(
    frames: &Vec<ParsedFrame>,
    layouts: &Vec<ParsedLayout>,
    shape: &ParsedShape,
    display: &DisplayProps,
    rect: &ParsedPane,
    fuel: u32,
) -> (r: Option<Vec<ParsedPane>>)
    requires
        frames_wf(frames@),
        pane_wf(*rect),
    ensures
        r matches Some(v) ==> flatten_shape(frames@, layouts@, *shape, *display, *rect, fuel as nat) == Some(
            v@,
        ),
        r is None ==> flatten_shape(frames@, layouts@, *shape, *display, *rect, fuel as nat) is None,
        r matches Some(v) ==> forall|k: int| 0 <= k < v@.len() ==> pane_wf(#[trigger] v@[k]),
    decreases fuel, shape, shape.children@.len() + 1,
{
    if let Some(o) = shape.when_orientation {
        if o != display_orientation(display) {
            return Some(Vec::new());
        }
    }
    let n = shape.children.len();
    let mut leaves: Vec<ParsedPane> = Vec::new();
    if is_multi_frame(shape.frame.as_str()) {
        let mut i: usize = 0;
        while i < n
            invariant
                n == shape.children@.len(),
                i <= n,
                frames_wf(frames@),
                flatten_shape(frames@, layouts@, *shape, *display, *rect, fuel as nat) == flatten_multi(
                    frames@,
                    layouts@,
                    *shape,
                    *display,
                    fuel as nat,
                    n as int,
                ),
                flatten_multi(frames@, layouts@, *shape, *display, fuel as nat, i as int) == Some(
                    leaves@,
                ),
                forall|k: int| 0 <= k < leaves@.len() ==> pane_wf(#[trigger] leaves@[k]),
            decreases n - i,
        {
            match &shape.children[i] {
                ShapeChild::Shape(cs) => {
                    let unit = unit_square();
                    match flatten_shape_tree(frames, layouts, cs, display, &unit, fuel) {
                        None => {
                            proof {
                                                lemma_multi_none(frames@, layouts@, *shape, *display, fuel as nat, i + 1, n as int);

                            }
                            return None;
                        },
                        Some(mut s) => {
                            let ghost prev = leaves@;
                            let ghost sv = s@;
                            leaves.append(&mut s);
                            assert forall|k: int| 0 <= k < leaves@.len() implies pane_wf(
                                #[trigger] leaves@[k],
                            ) by {
                                if k >= prev.len() {
                                    assert(leaves@[k] == sv[k - prev.len()]);
                                }
                            }
                        },
                    }
                },
                ShapeChild::Include(_) => {},
            }
            i = i + 1;
        }
        return Some(leaves);
    }
    let fi = match find_frame(frames, shape.frame.as_str()) {
        Some(fi) => fi,
        None => return Some(leaves),
    };
    let frame = &frames[fi];
    if frame.panes.len() != n {
        return Some(leaves);
    }
    let ghost panes = frame.panes@;
    let mut i: usize = 0;
    while i < n
        invariant
            flatten_shape(frames@, layouts@, *shape, *display, *rect, fuel as nat) == flatten_children(
                frames@,
                layouts@,
                *shape,
                panes,
                *display,
                *rect,
                fuel as nat,
                n as int,
            ),
            n == shape.children@.len(),
            n == panes.len(),
            panes == frame.panes@,
            fi < frames@.len(),
            frame == frames@[fi as int],
            i <= n,
            frames_wf(frames@),
            pane_wf(*rect),
            flatten_children(frames@, layouts@, *shape, panes, *display, *rect, fuel as nat, i as int)
                == Some(leaves@),
            forall|k: int| 0 <= k < leaves@.len() ==> pane_wf(#[trigger] leaves@[k]),
        decreases n - i,
    {
        proof {
            assert(pane_wf(frames@[fi as int].panes@[i as int]));
        }
        let abs = match compose_pane(rect, &frame.panes[i]) {
            Some(a) => a,
            None => {
                proof {
                    lemma_children_none(frames@, layouts@, *shape, panes, *display, *rect, fuel as nat, i + 1, n as int);
                }
                return None;
            },
        };
        let ghost prev = leaves@;
        match &shape.children[i] {
            ShapeChild::Shape(cs) => {
                match flatten_shape_tree(frames, layouts, cs, display, &abs, fuel) {
                    None => {
                        proof {
                            lemma_children_none(frames@, layouts@, *shape, panes, *display, *rect, fuel as nat, i + 1, n as int);
                        }
                        return None;
                    },
                    Some(mut s) => {
                        let ghost sv = s@;
                        leaves.append(&mut s);
                        assert forall|k: int| 0 <= k < leaves@.len() implies pane_wf(#[trigger] leaves@[k]) by {
                            if k >= prev.len() {
                                assert(leaves@[k] == sv[k - prev.len()]);
                            }
                        }
                    },
                }
            },
            ShapeChild::Include(inc) => {
                if inc.condition.matches(display) {
                    match &inc.layout {
                        None => {
                            leaves.push(abs);
                        },
                        Some(name) => {
                            match find_layout(layouts, name.as_str()) {
                                None => {},
                                Some(li) => {
                                    if fuel == 0 {
                                        proof {
                                            lemma_children_none(frames@, layouts@, *shape, panes, *display, *rect, fuel as nat, i + 1, n as int);
                                        }
                                        return None;
                                    }
                                    match flatten_shape_tree(
                                        frames,
                                        layouts,
                                        &layouts[li].root_shape,
                                        display,
                                        &abs,
                                        fuel - 1,
                                    ) {
                                        None => {
                                            proof {
                                                lemma_children_none(frames@, layouts@, *shape, panes, *display, *rect, fuel as nat, i + 1, n as int);
                                            }
                                            return None;
                                        },
                                        Some(mut s) => {
                                            let ghost sv = s@;
                                            leaves.append(&mut s);
                                            assert forall|k: int|
                                                0 <= k < leaves@.len() implies pane_wf(
                                                #[trigger] leaves@[k],
                                            ) by {
                                                if k >= prev.len() {
                                                    assert(leaves@[k] == sv[k - prev.len()]);
                                                }
                                            }
                                        },
                                    }
                                },
                            }
                        },
                    }
                }
            },
        }
        i = i + 1;
    }
    Some(leaves)
}

} // verus!
