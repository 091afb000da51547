//! Fractional panes on the display: mirroring and the cycling order.
use vstd::prelude::*;
use crate::fraction::{Fraction, reduced_of};
use crate::model::{MirrorMode, ParsedPane, TraverseOrder};

verus! {

/// A pane in display-relative fractions, inside the unit square.
#[derive(Debug, Clone, Copy, PartialEq, Eq, Structural)]
pub struct PaneFrac {
    pub x: Fraction,
    pub y: Fraction,
    pub width: Fraction,
    pub height: Fraction,
}

/// `u + size <= 1`, for fractions with positive denominators.
pub open spec fn fits_unit(u: Fraction, size: Fraction) -> bool {
    u.num * size.den + size.num * u.den <= u.den * size.den
}

impl PaneFrac {
    /// Parts in lowest terms and the rectangle inside the unit square.
    pub open spec fn wf(self) -> bool {
        &&& self.x.wf()
        &&& self.y.wf()
        &&& self.width.wf()
        &&& self.height.wf()
        &&& fits_unit(self.x, self.width)
        &&& fits_unit(self.y, self.height)
    }
}

pub open spec fn frac_of(p: ParsedPane) -> PaneFrac {
    PaneFrac { x: p.x, y: p.y, width: p.width, height: p.height }
}

/// The product of two 32-bit values, widened.
pub fn wide_mul(a: u32, b: u32) -> (r: u128)
    ensures
        r == a as int * b as int,
        r <= 0xffff_fffe_0000_0001,
{
    assert(a as int * b as int <= 0xffff_ffff * 0xffff_ffff) by (nonlinear_arith)
        requires
            a <= 0xffff_ffff,
            b <= 0xffff_ffff,
    ;
    (a as u128) * (b as u128)
}

/// Whether `u + size <= 1`.
pub fn within_unit(u: &Fraction, size: &Fraction) -> (r: bool)
    ensures
        r == fits_unit(*u, *size),
{
    wide_mul(u.num, size.den) + wide_mul(size.num, u.den) <= wide_mul(u.den, size.den)
}

/// `1 - u - size` in lowest terms.
pub open spec fn flipped(u: Fraction, size: Fraction) -> Option<Fraction> {
    reduced_of(
        (u.den * size.den - u.num * size.den - size.num * u.den) as nat,
        (u.den * size.den) as nat,
    )
}

/// The coordinate that mirrors `u` across the middle of the display: `1 - u - size`.
pub fn flip(u: &Fraction, size: &Fraction) -> (r: Option<Fraction>)
    requires
        u.wf(),
        size.wf(),
        fits_unit(*u, *size),
    ensures
        r == flipped(*u, *size),
        r matches Some(v) ==> v.wf() && fits_unit(v, *size),
{
    let a = u.num as u128;
    let b = u.den as u128;
    let c = size.num as u128;
    let d = size.den as u128;
    assert(b * d <= 0xffff_ffff * 0xffff_ffffu128) by (nonlinear_arith)
        requires
            b <= 0xffff_ffff,
            d <= 0xffff_ffff,
    ;
    assert(b * d > 0) by (nonlinear_arith)
        requires
            b > 0,
            d > 0,
    ;
    let r = Fraction::reduce(b * d - a * d - c * b, b * d);
    proof {
        if let Some(v) = r {
            let n = (b * d - a * d - c * b) as int;
            let m = (b * d) as int;
            assert(v.num * m == n * v.den);
            assert(v.num * d + c * v.den <= v.den * d) by (nonlinear_arith)
                requires
                    v.num * m == n * v.den,
                    m == b * d,
                    n == b * d - a * d - c * b,
                    a * d + c * b <= b * d,
                    b > 0,
                    d > 0,
                    v.den > 0,
                    a >= 0,
            ;
        }
    }
    r
}

/// Mirrors a pane on each axis set to flip.
pub open spec fn mirrored(p: PaneFrac, mirror_x: MirrorMode, mirror_y: MirrorMode) -> Option<PaneFrac> {
    let x = if mirror_x == MirrorMode::Flip { flipped(p.x, p.width) } else { Some(p.x) };
    let y = if mirror_y == MirrorMode::Flip { flipped(p.y, p.height) } else { Some(p.y) };
    match (x, y) {
        (Some(x), Some(y)) => Some(PaneFrac { x, y, width: p.width, height: p.height }),
        _ => None,
    }
}

pub fn mirror_pane(p: &PaneFrac, mirror_x: MirrorMode, mirror_y: MirrorMode) -> (r: Option<PaneFrac>)
    requires
        p.wf(),
    ensures
        r == mirrored(*p, mirror_x, mirror_y),
        r matches Some(q) ==> q.wf(),
{
    let x = if mirror_x == MirrorMode::Flip {
        match flip(&p.x, &p.width) {
            Some(v) => v,
            None => return None,
        }
    } else {
        p.x
    };
    let y = if mirror_y == MirrorMode::Flip {
        match flip(&p.y, &p.height) {
            Some(v) => v,
            None => return None,
        }
    } else {
        p.y
    };
    Some(PaneFrac { x, y, width: p.width, height: p.height })
}

/// Every pane mirrored, in order; `None` where a mirrored part does not fit.
pub open spec fn mirror_seq(s: Seq<PaneFrac>, mirror_x: MirrorMode, mirror_y: MirrorMode) -> Option<
    Seq<PaneFrac>,
>
    decreases s.len(),
{
    if s.len() == 0 {
        Some(s)
    } else {
        match (mirror_seq(s.drop_last(), mirror_x, mirror_y), mirrored(s.last(), mirror_x, mirror_y)) {
            (Some(a), Some(b)) => Some(a.push(b)),
            _ => None,
        }
    }
}

proof fn lemma_mirror_seq_none(s: Seq<PaneFrac>, mirror_x: MirrorMode, mirror_y: MirrorMode, i: int)
    requires
        0 <= i <= s.len(),
        mirror_seq(s.subrange(0, i), mirror_x, mirror_y) is None,
    ensures
        mirror_seq(s, mirror_x, mirror_y) is None,
    decreases s.len() - i,
{
    if i < s.len() {
        assert(s.subrange(0, i + 1).drop_last() =~= s.subrange(0, i));
        lemma_mirror_seq_none(s, mirror_x, mirror_y, i + 1);
    } else {
        assert(s.subrange(0, i) =~= s);
    }
}

/// Mirrors every pane; `None` where a mirrored part does not fit 32 bits.
pub fn apply_mirroring_fracs(panes: &Vec<PaneFrac>, mirror_x: MirrorMode, mirror_y: MirrorMode) -> (r:
    Option<Vec<PaneFrac>>)
    requires
        all_wf(panes@),
    ensures
        match r {
            Some(v) => mirror_seq(panes@, mirror_x, mirror_y) == Some(v@),
            None => mirror_seq(panes@, mirror_x, mirror_y) is None,
        },
        r matches Some(v) ==> all_wf(v@) && v@.len() == panes@.len(),
{
    let mut out: Vec<PaneFrac> = Vec::new();
    let mut i: usize = 0;
    proof {
        assert(panes@.subrange(0, 0) =~= Seq::<PaneFrac>::empty());
        assert(out@ =~= Seq::<PaneFrac>::empty());
    }
    while i < panes.len()
        invariant
            i <= panes@.len(),
            out@.len() == i,
            all_wf(panes@),
            all_wf(out@),
            mirror_seq(panes@.subrange(0, i as int), mirror_x, mirror_y) == Some(out@),
        decreases panes@.len() - i,
    {
        proof {
            assert(panes@.subrange(0, i + 1).drop_last() =~= panes@.subrange(0, i as int));
            assert(panes@.subrange(0, i + 1).last() == panes@[i as int]);
        }
        match mirror_pane(&panes[i], mirror_x, mirror_y) {
            Some(q) => out.push(q),
            None => {
                proof {
                    lemma_mirror_seq_none(panes@, mirror_x, mirror_y, i + 1);
                }
                return None;
            },
        }
        i = i + 1;
    }
    assert(panes@.subrange(0, panes@.len() as int) =~= panes@);
    Some(out)
}

/// Sign of `an/ad - bn/bd`, for positive denominators.
pub open spec fn rat_cmp(an: int, ad: int, bn: int, bd: int) -> int {
    if an * bd > bn * ad {
        1
    } else if an * bd < bn * ad {
        -1
    } else {
        0
    }
}

/// Comparison of fractions is a total preorder.
pub proof fn lemma_rat_cmp_trans(an: int, ad: int, bn: int, bd: int, cn: int, cd: int)
    requires
        ad > 0,
        bd > 0,
        cd > 0,
        rat_cmp(an, ad, bn, bd) <= 0,
        rat_cmp(bn, bd, cn, cd) <= 0,
    ensures
        rat_cmp(an, ad, cn, cd) <= 0,
        rat_cmp(an, ad, cn, cd) == 0 ==> rat_cmp(an, ad, bn, bd) == 0 && rat_cmp(bn, bd, cn, cd) == 0,
{
    let a = an * bd - bn * ad;
    let b = bn * cd - cn * bd;
    let c = an * cd - cn * ad;
    assert(bd * c == cd * a + ad * b) by (nonlinear_arith)
        requires
            a == an * bd - bn * ad,
            b == bn * cd - cn * bd,
            c == an * cd - cn * ad,
    ;
    assert(cd * a <= 0) by (nonlinear_arith)
        requires
            a <= 0,
            cd > 0,
    ;
    assert(ad * b <= 0) by (nonlinear_arith)
        requires
            b <= 0,
            ad > 0,
    ;
    if c > 0 {
        assert(bd * c > 0) by (nonlinear_arith)
            requires
                c > 0,
                bd > 0,
        ;
    }
    if c == 0 {
        assert(bd * c == 0);
        if a < 0 {
            assert(cd * a < 0) by (nonlinear_arith)
                requires
                    a < 0,
                    cd > 0,
            ;
        }
        if b < 0 {
            assert(ad * b < 0) by (nonlinear_arith)
                requires
                    b < 0,
                    ad > 0,
            ;
        }
    }
}

/// Sign of `an/ad - bn/bd`, exactly, for denominators below 2^64.
pub fn cmp_ratio(an: u128, ad: u128, bn: u128, bd: u128) -> (r: i8)
    requires
        0 < ad < 0x1_0000_0000_0000_0000,
        0 < bd < 0x1_0000_0000_0000_0000,
    ensures
        r as int == rat_cmp(an as int, ad as int, bn as int, bd as int),
{
    let qa = an / ad;
    let ra = an % ad;
    let qb = bn / bd;
    let rb = bn % bd;
    proof {
        vstd::arithmetic::div_mod::lemma_fundamental_div_mod(an as int, ad as int);
        vstd::arithmetic::div_mod::lemma_fundamental_div_mod(bn as int, bd as int);
    }
    let ghost diff = an * bd - bn * ad;
    assert(diff == (qa - qb) * (ad * bd) + (ra * bd - rb * ad)) by (nonlinear_arith)
        requires
            diff == an * bd - bn * ad,
            an == ad * qa + ra,
            bn == bd * qb + rb,
    ;
    assert(0 <= ra * bd < ad * bd) by (nonlinear_arith)
        requires
            0 <= ra < ad,
            bd > 0,
    ;
    assert(0 <= rb * ad < ad * bd) by (nonlinear_arith)
        requires
            0 <= rb < bd,
            ad > 0,
    ;
    if qa > qb {
        assert((qa - qb) * (ad * bd) >= ad * bd) by (nonlinear_arith)
            requires
                qa - qb >= 1,
                ad * bd > 0,
        ;
        assert(diff > 0);
        assert(an * bd > bn * ad);
        1
    } else if qa < qb {
        assert((qa - qb) * (ad * bd) <= -(ad * bd)) by (nonlinear_arith)
            requires
                qa - qb <= -1,
                ad * bd > 0,
        ;
        assert(diff < 0);
        assert(an * bd < bn * ad);
        -1
    } else {
        assert(ra * bd < 0x1_0000_0000_0000_0000 * 0x1_0000_0000_0000_0000) by (nonlinear_arith)
            requires
                ra < ad,
                ad <= 0x1_0000_0000_0000_0000,
                bd < 0x1_0000_0000_0000_0000,
        ;
        assert(rb * ad < 0x1_0000_0000_0000_0000 * 0x1_0000_0000_0000_0000) by (nonlinear_arith)
            requires
                rb < bd,
                bd <= 0x1_0000_0000_0000_0000,
                ad < 0x1_0000_0000_0000_0000,
        ;
        let x = ra * bd;
        let y = rb * ad;
        assert((qa - qb) * (ad * bd) == 0) by (nonlinear_arith)
            requires
                qa == qb,
        ;
        assert(diff == x - y);
        if x > y {
            1
        } else if x < y {
            -1
        } else {
            0
        }
    }
}

/// Area as numerator and denominator.
pub open spec fn area_n(p: PaneFrac) -> int {
    p.width.num * p.height.num
}

pub open spec fn area_d(p: PaneFrac) -> int {
    p.width.den * p.height.den
}

/// Twice the centre along x (resp. y), as numerator and denominator.
pub open spec fn centre_n(u: Fraction, size: Fraction) -> int {
    2 * u.num * size.den + size.num * u.den
}

pub open spec fn centre_d(u: Fraction, size: Fraction) -> int {
    u.den * size.den
}

/// Comparison of centres along x, in the given direction (`true` = increasing).
pub open spec fn cmp_x(a: PaneFrac, b: PaneFrac, forward: bool) -> int {
    if forward {
        rat_cmp(centre_n(a.x, a.width), centre_d(a.x, a.width), centre_n(b.x, b.width), centre_d(b.x, b.width))
    } else {
        rat_cmp(centre_n(b.x, b.width), centre_d(b.x, b.width), centre_n(a.x, a.width), centre_d(a.x, a.width))
    }
}

pub open spec fn cmp_y(a: PaneFrac, b: PaneFrac, forward: bool) -> int {
    if forward {
        rat_cmp(centre_n(a.y, a.height), centre_d(a.y, a.height), centre_n(b.y, b.height), centre_d(b.y, b.height))
    } else {
        rat_cmp(centre_n(b.y, b.height), centre_d(b.y, b.height), centre_n(a.y, a.height), centre_d(a.y, a.height))
    }
}

/// Primary axis is x, and the two directions, for a traverse order.
pub open spec fn traverse_parts(t: TraverseOrder) -> (bool, bool, bool) {
    match t {
        TraverseOrder::XfYf => (true, true, true),
        TraverseOrder::XfYr => (true, true, false),
        TraverseOrder::XrYf => (true, false, true),
        TraverseOrder::XrYr => (true, false, false),
        TraverseOrder::YfXf => (false, true, true),
        TraverseOrder::YfXr => (false, true, false),
        TraverseOrder::YrXf => (false, false, true),
        TraverseOrder::YrXr => (false, false, false),
    }
}

/// Larger area first: the sign of `area(b) - area(a)`.
pub open spec fn cmp_area(a: PaneFrac, b: PaneFrac) -> int {
    rat_cmp(area_n(b), area_d(b), area_n(a), area_d(a))
}

pub open spec fn cmp_primary(a: PaneFrac, b: PaneFrac, t: TraverseOrder) -> int {
    let (x_first, pf, _) = traverse_parts(t);
    if x_first { cmp_x(a, b, pf) } else { cmp_y(a, b, pf) }
}

pub open spec fn cmp_secondary(a: PaneFrac, b: PaneFrac, t: TraverseOrder) -> int {
    let (x_first, _, sf) = traverse_parts(t);
    if x_first { cmp_y(a, b, sf) } else { cmp_x(a, b, sf) }
}

/// The cycling order: area descending, then the centre along the primary
/// axis, then along the secondary axis, each in its direction.
pub open spec fn pane_cmp(a: PaneFrac, b: PaneFrac, t: TraverseOrder) -> int {
    if cmp_area(a, b) != 0 {
        cmp_area(a, b)
    } else if cmp_primary(a, b, t) != 0 {
        cmp_primary(a, b, t)
    } else {
        cmp_secondary(a, b, t)
    }
}

/// `a` comes strictly before `b`.
pub open spec fn before(a: PaneFrac, b: PaneFrac, t: TraverseOrder) -> bool {
    pane_cmp(a, b, t) < 0
}

/// No pane comes strictly before an earlier one.
pub open spec fn sorted_by(s: Seq<PaneFrac>, t: TraverseOrder) -> bool {
    forall|i: int, j: int| 0 <= i < j < s.len() ==> !before(#[trigger] s[j], #[trigger] s[i], t)
}

pub open spec fn all_wf(s: Seq<PaneFrac>) -> bool {
    forall|k: int| 0 <= k < s.len() ==> (#[trigger] s[k]).wf()
}

proof fn lemma_cmp_x_trans(a: PaneFrac, b: PaneFrac, c: PaneFrac, f: bool)
    requires
        a.wf(),
        b.wf(),
        c.wf(),
        cmp_x(a, b, f) <= 0,
        cmp_x(b, c, f) <= 0,
    ensures
        cmp_x(a, c, f) <= 0,
        cmp_x(a, c, f) == 0 ==> cmp_x(a, b, f) == 0 && cmp_x(b, c, f) == 0,
{
    lemma_pos_product(a.x.den as int, a.width.den as int);
    lemma_pos_product(b.x.den as int, b.width.den as int);
    lemma_pos_product(c.x.den as int, c.width.den as int);
    if f {
        lemma_rat_cmp_trans(
            centre_n(a.x, a.width), centre_d(a.x, a.width), centre_n(b.x, b.width), centre_d(b.x, b.width),
            centre_n(c.x, c.width), centre_d(c.x, c.width),
        );
    } else {
        lemma_rat_cmp_trans(
            centre_n(c.x, c.width), centre_d(c.x, c.width), centre_n(b.x, b.width), centre_d(b.x, b.width),
            centre_n(a.x, a.width), centre_d(a.x, a.width),
        );
    }
}

proof fn lemma_cmp_y_trans(a: PaneFrac, b: PaneFrac, c: PaneFrac, f: bool)
    requires
        a.wf(),
        b.wf(),
        c.wf(),
        cmp_y(a, b, f) <= 0,
        cmp_y(b, c, f) <= 0,
    ensures
        cmp_y(a, c, f) <= 0,
        cmp_y(a, c, f) == 0 ==> cmp_y(a, b, f) == 0 && cmp_y(b, c, f) == 0,
{
    lemma_pos_product(a.y.den as int, a.height.den as int);
    lemma_pos_product(b.y.den as int, b.height.den as int);
    lemma_pos_product(c.y.den as int, c.height.den as int);
    if f {
        lemma_rat_cmp_trans(
            centre_n(a.y, a.height), centre_d(a.y, a.height), centre_n(b.y, b.height), centre_d(b.y, b.height),
            centre_n(c.y, c.height), centre_d(c.y, c.height),
        );
    } else {
        lemma_rat_cmp_trans(
            centre_n(c.y, c.height), centre_d(c.y, c.height), centre_n(b.y, b.height), centre_d(b.y, b.height),
            centre_n(a.y, a.height), centre_d(a.y, a.height),
        );
    }
}

proof fn lemma_pos_product(a: int, b: int)
    requires
        a > 0,
        b > 0,
    ensures
        a * b > 0,
{
    assert(a * b > 0) by (nonlinear_arith)
        requires
            a > 0,
            b > 0,
    ;
}

/// The cycling order is transitive.
pub proof fn lemma_before_trans(a: PaneFrac, b: PaneFrac, c: PaneFrac, t: TraverseOrder)
    requires
        a.wf(),
        b.wf(),
        c.wf(),
        before(a, b, t),
        before(b, c, t),
    ensures
        before(a, c, t),
{
    lemma_pos_product(a.width.den as int, a.height.den as int);
    lemma_pos_product(b.width.den as int, b.height.den as int);
    lemma_pos_product(c.width.den as int, c.height.den as int);
    lemma_rat_cmp_trans(area_n(c), area_d(c), area_n(b), area_d(b), area_n(a), area_d(a));
    if cmp_area(a, c) == 0 {
        let (x_first, pf, sf) = traverse_parts(t);
        if x_first {
            lemma_cmp_x_trans(a, b, c, pf);
            if cmp_x(a, c, pf) == 0 {
                lemma_cmp_y_trans(a, b, c, sf);
            }
        } else {
            lemma_cmp_y_trans(a, b, c, pf);
            if cmp_y(a, c, pf) == 0 {
                lemma_cmp_x_trans(a, b, c, sf);
            }
        }
    }
}

/// Whether `a` comes strictly before `b` in the cycling order.
pub fn pane_before(a: &PaneFrac, b: &PaneFrac, traverse: TraverseOrder) -> (r: bool)
    requires
        a.wf(),
        b.wf(),
    ensures
        r == before(*a, *b, traverse),
{
    let aw = a.width;
    let ah = a.height;
    let bw = b.width;
    let bh = b.height;
    assert(aw.den as int * ah.den as int <= 0xffff_ffff * 0xffff_ffff) by (nonlinear_arith)
        requires
            aw.den <= 0xffff_ffff,
            ah.den <= 0xffff_ffff,
    ;
    assert(bw.den as int * bh.den as int <= 0xffff_ffff * 0xffff_ffff) by (nonlinear_arith)
        requires
            bw.den <= 0xffff_ffff,
            bh.den <= 0xffff_ffff,
    ;
    proof {
        lemma_pos_product(aw.den as int, ah.den as int);
        lemma_pos_product(bw.den as int, bh.den as int);
    }
    let c_area = cmp_ratio(
        wide_mul(bw.num, bh.num),
        wide_mul(bw.den, bh.den),
        wide_mul(aw.num, ah.num),
        wide_mul(aw.den, ah.den),
    );
    if c_area != 0 {
        return c_area < 0;
    }
    let (x_first, pf, sf) = match traverse {
        TraverseOrder::XfYf => (true, true, true),
        TraverseOrder::XfYr => (true, true, false),
        TraverseOrder::XrYf => (true, false, true),
        TraverseOrder::XrYr => (true, false, false),
        TraverseOrder::YfXf => (false, true, true),
        TraverseOrder::YfXr => (false, true, false),
        TraverseOrder::YrXf => (false, false, true),
        TraverseOrder::YrXr => (false, false, false),
    };
    let c_primary = if x_first {
        centre_cmp(&a.x, &a.width, &b.x, &b.width, pf)
    } else {
        centre_cmp(&a.y, &a.height, &b.y, &b.height, pf)
    };
    if c_primary != 0 {
        return c_primary < 0;
    }
    let c_secondary = if x_first {
        centre_cmp(&a.y, &a.height, &b.y, &b.height, sf)
    } else {
        centre_cmp(&a.x, &a.width, &b.x, &b.width, sf)
    };
    c_secondary < 0
}

/// Compares the centres `u + size/2` of two spans, in the given direction.
fn centre_cmp(au: &Fraction, asz: &Fraction, bu: &Fraction, bsz: &Fraction, forward: bool) -> (r: i8)
    requires
        au.den > 0,
        asz.den > 0,
        bu.den > 0,
        bsz.den > 0,
    ensures
        forward ==> r as int == rat_cmp(centre_n(*au, *asz), centre_d(*au, *asz), centre_n(*bu, *bsz), centre_d(*bu, *bsz)),
        !forward ==> r as int == rat_cmp(centre_n(*bu, *bsz), centre_d(*bu, *bsz), centre_n(*au, *asz), centre_d(*au, *asz)),
{
    let an = centre_num(au, asz);
    let ad = centre_den(au, asz);
    let bn = centre_num(bu, bsz);
    let bd = centre_den(bu, bsz);
    if forward {
        cmp_ratio(an, ad, bn, bd)
    } else {
        cmp_ratio(bn, bd, an, ad)
    }
}

fn centre_num(u: &Fraction, size: &Fraction) -> (r: u128)
    ensures
        r as int == centre_n(*u, *size),
{
    assert(u.num as int * size.den as int <= 0xffff_ffff * 0xffff_ffff) by (nonlinear_arith)
        requires
            u.num <= 0xffff_ffff,
            size.den <= 0xffff_ffff,
    ;
    assert(size.num as int * u.den as int <= 0xffff_ffff * 0xffff_ffff) by (nonlinear_arith)
        requires
            size.num <= 0xffff_ffff,
            u.den <= 0xffff_ffff,
    ;
    let a = wide_mul(u.num, size.den);
    let b = wide_mul(size.num, u.den);
    assert(2 * a + b == centre_n(*u, *size)) by (nonlinear_arith)
        requires
            a == u.num as int * size.den as int,
            b == size.num as int * u.den as int,
    ;
    2 * a + b
}

fn centre_den(u: &Fraction, size: &Fraction) -> (r: u128)
    requires
        u.den > 0,
        size.den > 0,
    ensures
        r as int == centre_d(*u, *size),
        0 < r < 0x1_0000_0000_0000_0000,
{
    assert(u.den as int * size.den as int <= 0xffff_ffff * 0xffff_ffff) by (nonlinear_arith)
        requires
            u.den <= 0xffff_ffff,
            size.den <= 0xffff_ffff,
    ;
    proof {
        lemma_pos_product(u.den as int, size.den as int);
    }
    (u.den as u128) * (size.den as u128)
}

/// Where insertion puts `e` into `s`: before the first pane at or after `k`
/// that `e` comes strictly before, else at the end.
pub open spec fn insert_pos(e: PaneFrac, s: Seq<PaneFrac>, t: TraverseOrder, k: int) -> int
    decreases s.len() - k,
{
    if k >= s.len() {
        s.len() as int
    } else if before(e, s[k], t) {
        k
    } else {
        insert_pos(e, s, t, k + 1)
    }
}

/// Stable insertion sort into the cycling order.
pub open spec fn sort_spec(s: Seq<PaneFrac>, t: TraverseOrder) -> Seq<PaneFrac>
    decreases s.len(),
{
    if s.len() == 0 {
        s
    } else {
        let prev = sort_spec(s.drop_last(), t);
        prev.insert(insert_pos(s.last(), prev, t, 0), s.last())
    }
}

/// Stable sort into the cycling order: largest area first, then by centre
/// along the traverse order.
pub fn sort_pane_list_fracs(panes: &Vec<PaneFrac>, traverse: TraverseOrder) -> (r: Vec<PaneFrac>)
    requires
        all_wf(panes@),
    ensures
        r@ == sort_spec(panes@, traverse),
        r@.to_multiset() == panes@.to_multiset(),
        r@.len() == panes@.len(),
        sorted_by(r@, traverse),
        all_wf(r@),
{
    let mut out: Vec<PaneFrac> = Vec::new();
    let mut i: usize = 0;
    proof {
        broadcast use vstd::seq_lib::group_to_multiset_ensures;
        assert(panes@.subrange(0, 0) =~= Seq::<PaneFrac>::empty());
        assert(out@ =~= Seq::<PaneFrac>::empty());
        assert(out@.to_multiset().len() == 0);
        assert(out@.to_multiset() =~= panes@.subrange(0, 0).to_multiset());
    }
    while i < panes.len()
        invariant
            i <= panes@.len(),
            all_wf(panes@),
            all_wf(out@),
            out@.len() == i,
            out@ == sort_spec(panes@.subrange(0, i as int), traverse),
            out@.to_multiset() == panes@.subrange(0, i as int).to_multiset(),
            sorted_by(out@, traverse),
        decreases panes@.len() - i,
    {
        let e = panes[i];
        let mut p: usize = 0;
        while p < out.len() && !pane_before(&e, &out[p], traverse)
            invariant
                p <= out@.len(),
                e.wf(),
                all_wf(out@),
                forall|k: int| 0 <= k < p ==> !before(e, #[trigger] out@[k], traverse),
                insert_pos(e, out@, traverse, 0) == insert_pos(e, out@, traverse, p as int),
            decreases out@.len() - p,
        {
            p = p + 1;
        }
        let ghost old_out = out@;
        out.insert(p, e);
        proof {
            broadcast use vstd::seq_lib::group_to_multiset_ensures;
            assert(out@ == old_out.insert(p as int, e));
            assert(panes@.subrange(0, i + 1) =~= panes@.subrange(0, i as int).push(e));
            assert(panes@.subrange(0, i + 1).drop_last() =~= panes@.subrange(0, i as int));
            assert(insert_pos(e, old_out, traverse, p as int) == p);
            assert forall|a: int, b: int| 0 <= a < b < out@.len() implies !before(#[trigger] out@[b], #[trigger] out@[a], traverse) by {
                if b < p {
                    assert(out@[a] == old_out[a] && out@[b] == old_out[b]);
                } else if a > p {
                    assert(out@[a] == old_out[a - 1] && out@[b] == old_out[b - 1]);
                } else if a == p {
                    // out[b] is old_out[b-1], at or after position p.
                    let q = b - 1;
                    if before(old_out[q], e, traverse) {
                        if p < old_out.len() {
                            assert(before(e, old_out[p as int], traverse));
                            lemma_before_trans(old_out[q], e, old_out[p as int], traverse);
                            if q > p {
                                assert(!before(old_out[q], old_out[p as int], traverse));
                            }
                            assert(pane_cmp(old_out[q], old_out[q], traverse) == 0);
                        }
                    }
                } else if b == p {
                    assert(out@[a] == old_out[a]);
                } else {
                    assert(out@[a] == old_out[a] && out@[b] == old_out[b - 1]);
                }
            }
        }
        i = i + 1;
    }
    assert(panes@.subrange(0, panes@.len() as int) =~= panes@);
    proof {
        assert(panes@.subrange(0, 0) =~= Seq::<PaneFrac>::empty());
    }
    out
}

} // verus!
