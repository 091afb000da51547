//! Properties that relate several operations of the layout engine.
use vstd::prelude::*;
use crate::fraction::{Fraction, gcd, lemma_divided_by_gcd_coprime, lemma_lowest_unique};
use crate::model::{MirrorMode, TraverseOrder};
use crate::order::{
    PaneFrac, before, cmp_area, fits_unit, flipped, insert_pos, mirrored, sort_spec, sorted_by,
};

verus! {

/// Flipping a coordinate twice on an axis gives it back: where `1 - u - size`
/// is representable, mirroring it again yields `u`.
pub proof fn lemma_flip_twice(u: Fraction, size: Fraction)
    requires
        u.wf(),
        size.wf(),
        fits_unit(u, size),
        flipped(u, size) is Some,
    ensures
        flipped(u, size) matches Some(v) && fits_unit(v, size) && flipped(v, size) == Some(u),
{
    let ud = u.den as int;
    let un = u.num as int;
    let sd = size.den as int;
    let sn = size.num as int;
    let n = ud * sd - un * sd - sn * ud;
    let m = ud * sd;
    assert(m > 0) by (nonlinear_arith)
        requires
            ud > 0,
            sd > 0,
            m == ud * sd,
    ;
    assert(n >= 0);
    let v = flipped(u, size).unwrap();
    lemma_divided_by_gcd_coprime(n as nat, m as nat);
    let g = gcd(n as nat, m as nat);
    let vn = v.num as int;
    let vd = v.den as int;
    assert(vn * g == n && vd * g == m);
    assert(vn * m == n * vd) by (nonlinear_arith)
        requires
            vn * g == n,
            vd * g == m,
    ;
    assert(vd > 0) by (nonlinear_arith)
        requires
            vd * g == m,
            m > 0,
            vd >= 0,
    ;
    assert(v.wf());
    // 1 - v - size == u
    let x = vd * sd - vn * sd - sn * vd;
    let p1 = un * sd;
    let p2 = sn * ud;
    assert((m - p1 - p2) * vd == m * vd - p1 * vd - p2 * vd) by (nonlinear_arith);
    assert(vn * m == m * vd - p1 * vd - p2 * vd);
    assert(x * m == vd * sd * m - vn * sd * m - sn * vd * m) by (nonlinear_arith)
        requires
            x == vd * sd - vn * sd - sn * vd,
    ;
    assert(vn * sd * m == sd * (vn * m)) by (nonlinear_arith);
    assert(sd * (vn * m) == sd * (m * vd) - sd * (p1 * vd) - sd * (p2 * vd)) by (nonlinear_arith)
        requires
            vn * m == m * vd - p1 * vd - p2 * vd,
    ;
    assert(sd * (m * vd) == vd * sd * m) by (nonlinear_arith);
    assert(sd * (p2 * vd) == sn * vd * m) by (nonlinear_arith)
        requires
            p2 == sn * ud,
            m == ud * sd,
    ;
    assert(sd * (p1 * vd) == un * vd * sd * sd) by (nonlinear_arith)
        requires
            p1 == un * sd,
    ;
    assert(x * m == un * vd * sd * sd);
    assert(x * ud * sd == un * vd * sd * sd) by (nonlinear_arith)
        requires
            x * m == un * vd * sd * sd,
            m == ud * sd,
    ;
    assert(x * ud == un * (vd * sd)) by (nonlinear_arith)
        requires
            x * ud * sd == un * vd * sd * sd,
            sd > 0,
    ;
    assert(x >= 0) by (nonlinear_arith)
        requires
            x * ud == un * (vd * sd),
            ud > 0,
            un >= 0,
            vd > 0,
            sd > 0,
    ;
    assert(vn * sd + sn * vd <= vd * sd);
    assert(vd * sd > 0) by (nonlinear_arith)
        requires
            vd > 0,
            sd > 0,
    ;
    lemma_lowest_unique(u, x as nat, (vd * sd) as nat);
}

/// Mirroring a pane twice with the same modes gives it back, where the
/// first mirroring is representable.
pub proof fn lemma_mirror_round_trip(p: PaneFrac, mirror_x: MirrorMode, mirror_y: MirrorMode)
    requires
        p.wf(),
        mirrored(p, mirror_x, mirror_y) is Some,
    ensures
        mirrored(p, mirror_x, mirror_y) matches Some(q) && mirrored(q, mirror_x, mirror_y) == Some(p),
{
    if mirror_x == MirrorMode::Flip {
        lemma_flip_twice(p.x, p.width);
    }
    if mirror_y == MirrorMode::Flip {
        lemma_flip_twice(p.y, p.height);
    }
}

/// No two panes have the same area.
pub open spec fn distinct_areas(s: Seq<PaneFrac>) -> bool {
    forall|i: int, j: int| 0 <= i < s.len() && 0 <= j < s.len() && i != j ==> cmp_area(s[i], s[j]) != 0
}

proof fn lemma_sort_elements(s: Seq<PaneFrac>, t: TraverseOrder)
    ensures
        sort_spec(s, t).len() == s.len(),
        forall|k: int| 0 <= k < sort_spec(s, t).len() ==> s.contains(#[trigger] sort_spec(s, t)[k]),
    decreases s.len(),
{
    if s.len() > 0 {
        let p = s.drop_last();
        lemma_sort_elements(p, t);
        let sp = sort_spec(p, t);
        lemma_insert_pos_range(s.last(), sp, t, 0);
        let pos = insert_pos(s.last(), sp, t, 0);
        let r = sp.insert(pos, s.last());
        assert forall|k: int| 0 <= k < r.len() implies s.contains(#[trigger] r[k]) by {
            if k < pos {
                assert(r[k] == sp[k]);
                assert(p.contains(sp[k]));
                let j = choose|j: int| 0 <= j < p.len() && p[j] == sp[k];
                assert(s[j] == p[j]);
            } else if k == pos {
                assert(s[s.len() - 1] == s.last());
            } else {
                assert(r[k] == sp[k - 1]);
                assert(p.contains(sp[k - 1]));
                let j = choose|j: int| 0 <= j < p.len() && p[j] == sp[k - 1];
                assert(s[j] == p[j]);
            }
        }
    }
}

proof fn lemma_insert_pos_range(e: PaneFrac, s: Seq<PaneFrac>, t: TraverseOrder, k: int)
    requires
        0 <= k,
    ensures
        k <= s.len() ==> k <= insert_pos(e, s, t, k) <= s.len(),
        k > s.len() ==> insert_pos(e, s, t, k) == s.len(),
    decreases s.len() - k,
{
    if k < s.len() {
        lemma_insert_pos_range(e, s, t, k + 1);
    }
}

proof fn lemma_insert_pos_by_area(e: PaneFrac, s: Seq<PaneFrac>, t1: TraverseOrder, t2: TraverseOrder, k: int)
    requires
        0 <= k,
        forall|j: int| 0 <= j < s.len() ==> cmp_area(e, #[trigger] s[j]) != 0,
    ensures
        insert_pos(e, s, t1, k) == insert_pos(e, s, t2, k),
    decreases s.len() - k,
{
    if k < s.len() {
        assert(cmp_area(e, s[k]) != 0);
        assert(before(e, s[k], t1) == before(e, s[k], t2));
        lemma_insert_pos_by_area(e, s, t1, t2, k + 1);
    }
}

/// When all panes differ in area, the cycling order does not depend on the
/// traverse order: it is by area alone.
pub proof fn lemma_distinct_areas_order(s: Seq<PaneFrac>, t1: TraverseOrder, t2: TraverseOrder)
    requires
        distinct_areas(s),
    ensures
        sort_spec(s, t1) == sort_spec(s, t2),
    decreases s.len(),
{
    if s.len() > 0 {
        let p = s.drop_last();
        assert(distinct_areas(p)) by {
            assert forall|i: int, j: int| 0 <= i < p.len() && 0 <= j < p.len() && i != j implies cmp_area(
                p[i],
                p[j],
            ) != 0 by {
                assert(p[i] == s[i] && p[j] == s[j]);
            }
        }
        lemma_distinct_areas_order(p, t1, t2);
        let sp = sort_spec(p, t1);
        lemma_sort_elements(p, t1);
        assert forall|k: int| 0 <= k < sp.len() implies cmp_area(s.last(), #[trigger] sp[k]) != 0 by {
            assert(p.contains(sp[k]));
            let j = choose|j: int| 0 <= j < p.len() && p[j] == sp[k];
            assert(s[j] == p[j]);
            assert(s.last() == s[s.len() - 1]);
        }
        lemma_insert_pos_by_area(s.last(), sp, t1, t2, 0);
    }
}

/// A list in cycling order whose panes all differ in area runs in strictly
/// decreasing area: the area alone decides the order.
pub proof fn lemma_distinct_areas_decrease(s: Seq<PaneFrac>, t: TraverseOrder)
    requires
        sorted_by(s, t),
        distinct_areas(s),
    ensures
        forall|i: int, j: int| 0 <= i < j < s.len() ==> cmp_area(#[trigger] s[i], #[trigger] s[j]) < 0,
{
    assert forall|i: int, j: int| 0 <= i < j < s.len() implies cmp_area(#[trigger] s[i], #[trigger] s[j]) < 0 by {
        assert(!before(s[j], s[i], t));
        assert(cmp_area(s[j], s[i]) != 0);
        assert(cmp_area(s[i], s[j]) != 0);
    }
}

} // verus!
