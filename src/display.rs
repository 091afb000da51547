//! Display corrections and the realisation of fractional panes as pixels.
use vstd::prelude::*;
use crate::form::RuntimeDisplayQuirk;
use crate::fraction::Fraction;
use crate::order::PaneFrac;
use crate::text::{seq_contains, str_contains};

verus! {

/// Panes smaller than this on either side are not offered.
pub const MIN_PANE_SIDE: i64 = 100;

/// The usable area of a display, in absolute screen pixels.
#[derive(Debug, Clone, Copy, PartialEq, Eq, Structural)]
pub struct VisibleFrame {
    pub min_x: i32,
    pub min_y: i32,
    pub width: u32,
    pub height: u32,
}

/// A rectangle in absolute screen pixels.
#[derive(Debug, Clone, Copy, PartialEq, Eq, Structural)]
pub struct PixelRect {
    pub x: i64,
    pub y: i64,
    pub width: i64,
    pub height: i64,
}

/// The quirks that match a display name (case-sensitive substring).
pub open spec fn quirk_matches(q: RuntimeDisplayQuirk, name: Seq<char>) -> bool {
    seq_contains(name, q.name_contains@)
}

/// The largest inset among matching quirks, 0 where none matches.
pub open spec fn is_max_inset(quirks: Seq<RuntimeDisplayQuirk>, name: Seq<char>, r: u32) -> bool {
    &&& forall|k: int|
        0 <= k < quirks.len() && quirk_matches(#[trigger] quirks[k], name) ==> quirks[k].min_bottom_inset <= r
    &&& (r == 0 || exists|k: int|
        0 <= k < quirks.len() && quirk_matches(#[trigger] quirks[k], name) && quirks[k].min_bottom_inset == r)
}

/// Bottom inset for a display: the maximum over all matching quirks.
pub fn max_bottom_inset(quirks: &Vec<RuntimeDisplayQuirk>, name: &str) -> (r: u32)
    ensures
        is_max_inset(quirks@, name@, r),
{
    let mut best: u32 = 0;
    let mut i: usize = 0;
    while i < quirks.len()
        invariant
            i <= quirks@.len(),
            is_max_inset(quirks@.subrange(0, i as int), name@, best),
        decreases quirks@.len() - i,
    {
        let q = &quirks[i];
        let ghost prefix = quirks@.subrange(0, i as int);
        let ghost next = quirks@.subrange(0, i + 1);
        if str_contains(name, q.name_contains.as_str()) && q.min_bottom_inset > best {
            best = q.min_bottom_inset;
            proof {
                assert forall|k: int|
                    0 <= k < next.len() && quirk_matches(#[trigger] next[k], name@) implies next[k].min_bottom_inset
                    <= best by {
                    if k < i {
                        assert(next[k] == prefix[k]);
                    }
                }
                assert(quirk_matches(next[i as int], name@) && next[i as int].min_bottom_inset == best);
            }
        } else {
            proof {
                assert forall|k: int|
                    0 <= k < next.len() && quirk_matches(#[trigger] next[k], name@) implies next[k].min_bottom_inset
                    <= best by {
                    if k < i {
                        assert(next[k] == prefix[k]);
                    }
                }
                if best != 0 {
                    let k0 = choose|k: int|
                        0 <= k < prefix.len() && quirk_matches(#[trigger] prefix[k], name@)
                            && prefix[k].min_bottom_inset == best;
                    assert(next[k0] == prefix[k0]);
                }
            }
        }
        i = i + 1;
    }
    assert(quirks@.subrange(0, quirks@.len() as int) =~= quirks@);
    best
}

/// Design height: the visible height, less the menu bar where the visible
/// frame does not already exclude it (its origin is the full frame's, in
/// top-down screen coordinates), less the quirk inset; 0 at least.
pub open spec fn corrected_height(visible: u32, visible_origin_y: i32, full_origin_y: i32, menu_bar: u32, inset: u32) -> u32 {
    let h = if visible_origin_y == full_origin_y { visible - menu_bar } else { visible as int };
    let h2 = h - inset;
    if h2 < 0 { 0 } else { h2 as u32 }
}

pub fn design_height(
    visible_height: u32,
    visible_origin_y: i32,
    full_origin_y: i32,
    menu_bar_height: u32,
    inset: u32,
) -> (r: u32)
    ensures
        r == corrected_height(visible_height, visible_origin_y, full_origin_y, menu_bar_height, inset),
{
    let h: u32 = if visible_origin_y == full_origin_y {
        visible_height.saturating_sub(menu_bar_height)
    } else {
        visible_height
    };
    if visible_origin_y == full_origin_y && menu_bar_height > visible_height {
        return 0;
    }
    h.saturating_sub(inset)
}

/// `f * len`, rounded down to whole pixels.
pub open spec fn span(f: Fraction, len: u32) -> int {
    (f.num * len) / (f.den as int)
}

pub fn pixel_span(f: &Fraction, len: u32) -> (r: i64)
    requires
        0 < f.den,
        f.num <= f.den,
    ensures
        r == span(*f, len),
        0 <= r <= len,
{
    assert(f.num as int * len as int <= 0xffff_ffff * 0xffff_ffff) by (nonlinear_arith)
        requires
            f.num <= 0xffff_ffff,
            len <= 0xffff_ffff,
    ;
    let p = (f.num as u64) * (len as u64);
    let q = p / (f.den as u64);
    assert(q <= p) by {
        vstd::arithmetic::div_mod::lemma_div_is_ordered_by_denominator(p as int, 1, f.den as int);
    }
    assert(p == f.num * len);
    assert(q <= len) by {
        assert(f.num as int * len as int <= f.den as int * len as int) by (nonlinear_arith)
            requires
                f.num <= f.den,
        ;
        vstd::arithmetic::div_mod::lemma_div_is_ordered(p as int, f.den as int * len as int, f.den as int);
        vstd::arithmetic::div_mod::lemma_div_multiples_vanish(len as int, f.den as int);
        assert(f.den as int * len as int == len as int * f.den as int) by (nonlinear_arith);
    }
    q as i64
}

/// A fractional pane placed on a frame: `x = min_x + f.x * width` and alike.
pub open spec fn realised(vf: VisibleFrame, p: PaneFrac) -> PixelRect {
    PixelRect {
        x: (vf.min_x + span(p.x, vf.width)) as i64,
        y: (vf.min_y + span(p.y, vf.height)) as i64,
        width: span(p.width, vf.width) as i64,
        height: span(p.height, vf.height) as i64,
    }
}

/// Places a fractional pane on a display frame, in whole pixels.
pub fn realize_pane(vf: &VisibleFrame, p: &PaneFrac) -> (r: PixelRect)
    requires
        p.wf(),
    ensures
        r == realised(*vf, *p),
{
    proof {
        lemma_unit_parts(p.x, p.width);
        lemma_unit_parts(p.y, p.height);
    }
    let x = pixel_span(&p.x, vf.width);
    let y = pixel_span(&p.y, vf.height);
    let w = pixel_span(&p.width, vf.width);
    let h = pixel_span(&p.height, vf.height);
    PixelRect { x: vf.min_x as i64 + x, y: vf.min_y as i64 + y, width: w, height: h }
}

proof fn lemma_unit_parts(u: Fraction, size: Fraction)
    requires
        u.den > 0,
        size.den > 0,
        crate::order::fits_unit(u, size),
    ensures
        u.num <= u.den,
        size.num <= size.den,
{
    assert(u.num * size.den <= u.den * size.den);
    assert(size.num * u.den <= u.den * size.den);
    assert(u.den * size.den == size.den * u.den) by (nonlinear_arith);
    assert(u.num <= u.den) by (nonlinear_arith)
        requires
            u.num * size.den <= u.den * size.den,
            size.den > 0,
    ;
    assert(size.num <= size.den) by (nonlinear_arith)
        requires
            size.num * u.den <= size.den * u.den,
            u.den > 0,
    ;
}

/// Large enough to offer: at least the minimum on both sides.
pub open spec fn big_enough(r: PixelRect) -> bool {
    r.width >= MIN_PANE_SIDE && r.height >= MIN_PANE_SIDE
}

/// Realises every pane and keeps those large enough, in order.
pub open spec fn realised_panes(vf: VisibleFrame, s: Seq<PaneFrac>) -> Seq<PixelRect>
    decreases s.len(),
{
    if s.len() == 0 {
        Seq::empty()
    } else {
        let prev = realised_panes(vf, s.drop_last());
        let r = realised(vf, s.last());
        if big_enough(r) { prev.push(r) } else { prev }
    }
}

pub fn realize_panes(vf: &VisibleFrame, panes: &Vec<PaneFrac>) -> (r: Vec<PixelRect>)
    requires
        forall|k: int| 0 <= k < panes@.len() ==> (#[trigger] panes@[k]).wf(),
    ensures
        r@ == realised_panes(*vf, panes@),
{
    let mut out: Vec<PixelRect> = Vec::new();
    let mut i: usize = 0;
    while i < panes.len()
        invariant
            i <= panes@.len(),
            forall|k: int| 0 <= k < panes@.len() ==> (#[trigger] panes@[k]).wf(),
            out@ == realised_panes(*vf, panes@.subrange(0, i as int)),
        decreases panes@.len() - i,
    {
        proof {
            assert(panes@.subrange(0, i + 1).drop_last() =~= panes@.subrange(0, i as int));
            assert(panes@[i as int].wf());
        }
        let r = realize_pane(vf, &panes[i]);
        if r.width >= MIN_PANE_SIDE && r.height >= MIN_PANE_SIDE {
            out.push(r);
        }
        i = i + 1;
    }
    assert(panes@.subrange(0, panes@.len() as int) =~= panes@);
    out
}

/// Realisation scales with the display: on a display of no width every
/// offset and width is 0, and on one of half the (even) width every offset
/// and width is half of that on the full width, rounded down.
pub proof fn lemma_realisation_scales(f: Fraction, len: u32)
    requires
        f.den > 0,
        len % 2 == 0,
    ensures
        span(f, 0) == 0,
        span(f, (len / 2) as u32) == span(f, len) / 2,
{
    let d = f.den as int;
    let n = f.num as int;
    assert(n * 0 == 0);
    vstd::arithmetic::div_mod::lemma_div_of0(d);
    let h = (len / 2) as int;
    assert(n * len == 2 * (n * h)) by (nonlinear_arith)
        requires
            len == 2 * h,
    ;
    vstd::arithmetic::div_mod::lemma_div_denominator(2 * (n * h), d, 2);
    assert(2 * (n * h) / 2 == n * h) by {
        vstd::arithmetic::div_mod::lemma_div_multiples_vanish(n * h, 2);
    }
    assert((2 * (n * h)) / (d * 2) == (n * h) / d) by {
        vstd::arithmetic::div_mod::lemma_div_denominator(2 * (n * h), 2, d);
    }
    assert(d * 2 == 2 * d);
}

} // verus!
