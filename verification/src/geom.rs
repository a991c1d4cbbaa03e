//! Points, rectangles and line segments in fixed-point coordinates,
//! with the clipping step of the flow-field builder: a segment is cut
//! to a cell's axis-aligned bounding box, and a segment that misses the
//! box is dropped rather than emitted.

use crate::fx::{is_sqrt, lemma_sqrt_val, lemma_tdiv_frac_bound, sqrt_val, tdiv, tdiv64, isqrt, ONE};
use vstd::arithmetic::div_mod::{
    lemma_div_basics_2, lemma_div_is_ordered, lemma_div_multiples_vanish, lemma_div_pos_is_pos,
    lemma_fundamental_div_mod, lemma_mod_bound,
};
use vstd::prelude::*;

verus! {

/// Coordinate magnitude bound under which every product the clip takes
/// fits in an `i64`.
pub const C_MAX: i64 = 0x3000_0000;

/// A point (or a vector) with fixed-point coordinates.
#[derive(Clone, Copy, PartialEq, Eq, Structural, Debug)]
pub struct Pt {
    pub x: i64,
    pub y: i64,
}

/// A line segment between two points.
#[derive(Clone, Copy, PartialEq, Eq, Structural, Debug)]
pub struct Seg {
    pub a: Pt,
    pub b: Pt,
}

/// An axis-aligned rectangle, `x0 <= x1` and `y0 <= y1` when well
/// formed.
#[derive(Clone, Copy, PartialEq, Eq, Structural, Debug)]
pub struct Rect {
    pub x0: i64,
    pub y0: i64,
    pub x1: i64,
    pub y1: i64,
}

/// The mathematical model of a point: unbounded integer coordinates.
pub ghost struct PtM {
    pub x: int,
    pub y: int,
}

/// The mathematical model of a segment.
pub ghost struct SegM {
    pub a: PtM,
    pub b: PtM,
}

/// The mathematical model of a rectangle.
pub ghost struct RectM {
    pub x0: int,
    pub y0: int,
    pub x1: int,
    pub y1: int,
}

impl View for Pt {
    type V = PtM;

    open spec fn view(&self) -> PtM {
        PtM { x: self.x as int, y: self.y as int }
    }
}

impl View for Seg {
    type V = SegM;

    open spec fn view(&self) -> SegM {
        SegM { a: self.a@, b: self.b@ }
    }
}

impl View for Rect {
    type V = RectM;

    open spec fn view(&self) -> RectM {
        RectM { x0: self.x0 as int, y0: self.y0 as int, x1: self.x1 as int, y1: self.y1 as int }
    }
}

/// The model of an optional segment.
pub open spec fn seg_opt_view(o: Option<Seg>) -> Option<SegM> {
    match o {
        Option::Some(s) => Option::Some(s@),
        Option::None => Option::None,
    }
}

/// Whether the rectangle's corners are ordered.
pub open spec fn rect_wf(r: RectM) -> bool {
    r.x0 <= r.x1 && r.y0 <= r.y1
}

/// Whether a point lies within the rectangle, borders included.
pub open spec fn pt_in_rect(p: PtM, r: RectM) -> bool {
    r.x0 <= p.x <= r.x1 && r.y0 <= p.y <= r.y1
}

/// Whether a coordinate is small enough for the clip's products.
pub open spec fn coord_ok(x: int) -> bool {
    -C_MAX <= x <= C_MAX
}

/// Whether all of a segment's coordinates are small enough.
pub open spec fn seg_ok(s: SegM) -> bool {
    coord_ok(s.a.x) && coord_ok(s.a.y) && coord_ok(s.b.x) && coord_ok(s.b.y)
}

/// Whether all of a rectangle's coordinates are small enough.
pub open spec fn rect_ok(r: RectM) -> bool {
    coord_ok(r.x0) && coord_ok(r.y0) && coord_ok(r.x1) && coord_ok(r.y1)
}

/// The clamp of `x` into `[lo, hi]`.
pub open spec fn clamp_ival(x: int, lo: int, hi: int) -> int {
    if x < lo {
        lo
    } else if x > hi {
        hi
    } else {
        x
    }
}

/// Clamps a coordinate into `[lo, hi]`.
pub fn clamp_coord(x: i64, lo: i64, hi: i64) -> (r: i64)
    requires
        lo <= hi,
    ensures
        r == clamp_ival(x as int, lo as int, hi as int),
        lo <= r <= hi,
{
    if x < lo {
        lo
    } else if x > hi {
        hi
    } else {
        x
    }
}

/// One half-plane constraint `u * t <= v` folded into the feasible
/// interval `[lo, hi]` of the clip parameter `t`, starting from
/// `[0, 1]`.
pub open spec fn tighten_spec(st: (bool, int, int, int, int), u: int, v: int) -> (
    bool,
    int,
    int,
    int,
    int,
) {
    let (ok, ln, ld, hn, hd) = st;
    if !ok {
        st
    } else if u == 0 {
        if v < 0 {
            (false, ln, ld, hn, hd)
        } else {
            st
        }
    } else if u > 0 {
        if v * hd < hn * u {
            (ok, ln, ld, v, u)
        } else {
            st
        }
    } else {
        if (-v) * ld > ln * (-u) {
            (ok, -v, -u, hn, hd)
        } else {
            st
        }
    }
}

/// The feasible interval after all four sides of the rectangle.
pub open spec fn clip_interval_spec(s: SegM, r: RectM) -> (bool, int, int, int, int) {
    let dx = s.b.x - s.a.x;
    let dy = s.b.y - s.a.y;
    let st1 = tighten_spec((true, 0, 1, 1, 1), -dx, s.a.x - r.x0);
    let st2 = tighten_spec(st1, dx, r.x1 - s.a.x);
    let st3 = tighten_spec(st2, -dy, s.a.y - r.y0);
    tighten_spec(st3, dy, r.y1 - s.a.y)
}

/// A point of the segment at parameter `n / d`, one coordinate,
/// truncated and clamped into the side's range.
pub open spec fn lerp_clamped(a: int, delta: int, n: int, d: int, lo: int, hi: int) -> int {
    clamp_ival(a + tdiv(delta * n, d), lo, hi)
}

/// The clipped segment: the part of `s` within `r`, endpoints rounded
/// and clamped into `r`; `None` when the segment misses the rectangle.
pub open spec fn clip_spec(s: SegM, r: RectM) -> Option<SegM> {
    let dx = s.b.x - s.a.x;
    let dy = s.b.y - s.a.y;
    let (ok, ln, ld, hn, hd) = clip_interval_spec(s, r);
    if !ok || ln * hd > hn * ld {
        Option::None
    } else {
        Option::Some(
            SegM {
                a: PtM {
                    x: lerp_clamped(s.a.x, dx, ln, ld, r.x0, r.x1),
                    y: lerp_clamped(s.a.y, dy, ln, ld, r.y0, r.y1),
                },
                b: PtM {
                    x: lerp_clamped(s.a.x, dx, hn, hd, r.x0, r.x1),
                    y: lerp_clamped(s.a.y, dy, hn, hd, r.y0, r.y1),
                },
            },
        )
    }
}

/// The running feasible interval of the clip.
struct ClipSt {
    ok: bool,
    ln: i64,
    ld: i64,
    hn: i64,
    hd: i64,
}

impl ClipSt {
    spec fn m(&self) -> (bool, int, int, int, int) {
        (self.ok, self.ln as int, self.ld as int, self.hn as int, self.hd as int)
    }

    /// Bounds and shape invariants kept across the four constraints.
    spec fn inv(&self) -> bool {
        0 < self.ld && 0 <= self.ln && 0 < self.hd && self.hn <= self.hd && -2 * C_MAX
            <= self.ln <= 2 * C_MAX && 0 < self.ld <= 2 * C_MAX && -2 * C_MAX <= self.hn && 0
            < self.hd <= 2 * C_MAX
    }
}

/// Folds one half-plane constraint `u * t <= v` into the feasible
/// interval.
fn tighten(st: ClipSt, u: i64, v: i64) -> (out: ClipSt)
    requires
        st.inv(),
        -2 * C_MAX <= u <= 2 * C_MAX,
        -2 * C_MAX <= v <= 2 * C_MAX,
    ensures
        out.inv(),
        out.m() == tighten_spec(st.m(), u as int, v as int),
{
    proof {
        assert forall|p: int, q: int|
            -2 * C_MAX <= p <= 2 * C_MAX && -2 * C_MAX <= q <= 2 * C_MAX implies -0x4000_0000_0000_0000
            < #[trigger] (p * q) < 0x4000_0000_0000_0000 by {
            assert(-0x4000_0000_0000_0000 < p * q < 0x4000_0000_0000_0000) by (nonlinear_arith)
                requires
                    -0x6000_0000int <= p <= 0x6000_0000int && -0x6000_0000int <= q
                        <= 0x6000_0000int,
            ;
        }
    }
    if !st.ok {
        st
    } else if u == 0 {
        if v < 0 {
            ClipSt { ok: false, ..st }
        } else {
            st
        }
    } else if u > 0 {
        if v * st.hd < st.hn * u {
            proof {
                assert(v <= u) by (nonlinear_arith)
                    requires
                        (v as int) * (st.hd as int) < (st.hn as int) * (u as int) && st.hn
                            <= st.hd && 0 < st.hd && 0 < u,
                ;
            }
            ClipSt { hn: v, hd: u, ..st }
        } else {
            st
        }
    } else {
        if (-v) * st.ld > st.ln * (-u) {
            proof {
                assert(0 < -(v as int)) by (nonlinear_arith)
                    requires
                        (-(v as int)) * (st.ld as int) > (st.ln as int) * (-(u as int)) && 0
                            < st.ld && 0 <= st.ln && 0 < -(u as int),
                ;
            }
            ClipSt { ln: -v, ld: -u, ..st }
        } else {
            st
        }
    }
}

/// Products of clip-sized terms stay well within the `i64` range.
proof fn lemma_prod_range(p: int, q: int)
    requires
        -0x6000_0000 <= p <= 0x6000_0000,
        -0x6000_0000 <= q <= 0x6000_0000,
    ensures
        -0x4000_0000_0000_0000 < p * q < 0x4000_0000_0000_0000,
{
    assert(-0x4000_0000_0000_0000 < p * q < 0x4000_0000_0000_0000) by (nonlinear_arith)
        requires
            -0x6000_0000int <= p <= 0x6000_0000int && -0x6000_0000int <= q <= 0x6000_0000int,
    ;
}

/// A constraint that holds at both ends of the parameter range leaves
/// the initial feasible interval `[0, 1]` unchanged.
proof fn lemma_tighten_keeps_init(u: int, v: int)
    requires
        0 <= v,
        u <= v,
    ensures
        tighten_spec((true, 0, 1, 1, 1), u, v) == (true, 0int, 1int, 1int, 1int),
{
    if u > 0 {
        assert(v * 1 == v && 1 * u == u) by (nonlinear_arith);
    } else if u < 0 {
        assert((-v) * 1 == -v && 0 * (-u) == 0) by (nonlinear_arith);
    }
}

/// Interpolation at the ends of the parameter range is exact.
proof fn lemma_tdiv_unit(a: int)
    ensures
        tdiv(a * 0, 1) == 0,
        tdiv(a * 1, 1) == a,
{
    assert(a * 0 == 0 && a * 1 == a) by (nonlinear_arith);
    lemma_div_basics_2(0);
    lemma_div_basics_2(a);
    lemma_div_basics_2(-a);
}

/// Clips a segment to a rectangle.  The part of the segment within the
/// rectangle is returned with endpoints rounded to the fixed-point
/// raster and clamped into the rectangle; a segment that misses the
/// rectangle yields `None` and is dropped by the callers, never an
/// error.  A segment already inside comes back unchanged.
#[verifier::rlimit(50)]
pub fn clip_seg(s: Seg, r: Rect) -> (out: Option<Seg>)
    requires
        rect_wf(r@),
        seg_ok(s@),
        rect_ok(r@),
    ensures
        seg_opt_view(out) == clip_spec(s@, r@),
        out matches Some(c) ==> pt_in_rect(c@.a, r@) && pt_in_rect(c@.b, r@),
        pt_in_rect(s@.a, r@) && pt_in_rect(s@.b, r@) ==> out == Some(s),
{
    let dx = s.b.x - s.a.x;
    let dy = s.b.y - s.a.y;
    let st0 = ClipSt { ok: true, ln: 0, ld: 1, hn: 1, hd: 1 };
    let st1 = tighten(st0, -dx, s.a.x - r.x0);
    let st2 = tighten(st1, dx, r.x1 - s.a.x);
    let st3 = tighten(st2, -dy, s.a.y - r.y0);
    let st = tighten(st3, dy, r.y1 - s.a.y);
    proof {
        lemma_prod_range(st.ln as int, st.hd as int);
        lemma_prod_range(st.hn as int, st.ld as int);
        lemma_prod_range(dx as int, st.ln as int);
        lemma_prod_range(dy as int, st.ln as int);
        lemma_prod_range(dx as int, st.hn as int);
        lemma_prod_range(dy as int, st.hn as int);
    }
    proof {
        if pt_in_rect(s@.a, r@) && pt_in_rect(s@.b, r@) {
            lemma_tighten_keeps_init(-(dx as int), s.a.x - r.x0);
            assert(st1.m() == (true, 0int, 1int, 1int, 1int));
            lemma_tighten_keeps_init(dx as int, r.x1 - s.a.x);
            assert(st2.m() == (true, 0int, 1int, 1int, 1int));
            lemma_tighten_keeps_init(-(dy as int), s.a.y - r.y0);
            assert(st3.m() == (true, 0int, 1int, 1int, 1int));
            lemma_tighten_keeps_init(dy as int, r.y1 - s.a.y);
            assert(st.m() == (true, 0int, 1int, 1int, 1int));
            lemma_tdiv_unit(dx as int);
            lemma_tdiv_unit(dy as int);
            assert(0 * 1 == 0 && 1 * 1 == 1) by (nonlinear_arith);
        }
    }
    if !st.ok || st.ln * st.hd > st.hn * st.ld {
        None
    } else {
        proof {
            assert(st.ln <= st.ld) by (nonlinear_arith)
                requires
                    (st.ln as int) * (st.hd as int) <= (st.hn as int) * (st.ld as int) && st.hn
                        <= st.hd && 0 < st.hd && 0 < st.ld && 0 <= st.ln,
            ;
            assert(0 <= st.hn) by (nonlinear_arith)
                requires
                    (st.ln as int) * (st.hd as int) <= (st.hn as int) * (st.ld as int) && 0
                        <= st.ln && 0 < st.hd && 0 < st.ld,
            ;
            lemma_tdiv_frac_bound(dx as int, st.ln as int, st.ld as int);
            lemma_tdiv_frac_bound(dy as int, st.ln as int, st.ld as int);
            lemma_tdiv_frac_bound(dx as int, st.hn as int, st.hd as int);
            lemma_tdiv_frac_bound(dy as int, st.hn as int, st.hd as int);
        }
        let ax = clamp_coord(s.a.x + tdiv64(dx * st.ln, st.ld), r.x0, r.x1);
        let ay = clamp_coord(s.a.y + tdiv64(dy * st.ln, st.ld), r.y0, r.y1);
        let bx = clamp_coord(s.a.x + tdiv64(dx * st.hn, st.hd), r.x0, r.x1);
        let by = clamp_coord(s.a.y + tdiv64(dy * st.hn, st.hd), r.y0, r.y1);
        Some(Seg { a: Pt { x: ax, y: ay }, b: Pt { x: bx, y: by } })
    }
}

/// A clipped segment's endpoints lie in the rectangle: the spec-level
/// face of `clip_seg`'s contract, usable in proofs about whole runs.
pub proof fn lemma_clip_spec_in_rect(s: SegM, r: RectM)
    requires
        rect_wf(r),
    ensures
        clip_spec(s, r) matches Option::Some(c) ==> pt_in_rect(c.a, r) && pt_in_rect(c.b, r),
{
}

/// Magnitude bound on each raw noise channel accepted by
/// [`direction`]: generous room for several summed noise octaves.
pub const DIR_IN_MAX: i64 = 80000;

/// Pre-scale applied to the raw components before the square root, so
/// the rounding error of normalization stays below one part in the
/// pre-scale.
pub const DIR_UP: i64 = 10000;

/// The noise-derived direction of a cell: the unit vector along
/// `(dx, dy)` on the fixed-point raster, or the fallback `(ONE, 0)`
/// for the degenerate all-zero sample, for which normalization is
/// undefined.
pub open spec fn dir_spec(dx: int, dy: int) -> PtM {
    if dx == 0 && dy == 0 {
        PtM { x: ONE as int, y: 0 }
    } else {
        let sx = dx * DIR_UP;
        let sy = dy * DIR_UP;
        let l = sqrt_val(sx * sx + sy * sy);
        PtM { x: tdiv(sx * ONE, l), y: tdiv(sy * ONE, l) }
    }
}

/// A component scaled down by the vector's own length is at most one
/// unit.
proof fn lemma_dir_comp_bound(sx: int, l: int)
    requires
        0 < l,
        -l <= sx <= l,
    ensures
        sx >= 0 ==> 0 <= tdiv(sx * ONE, l) <= ONE,
        sx < 0 ==> -ONE <= tdiv(sx * ONE, l) <= 0,
{
    if sx >= 0 {
        assert(0 <= sx * ONE <= l * ONE) by (nonlinear_arith)
            requires
                0 <= sx <= l && ONE == 10000i64,
        ;
        lemma_div_pos_is_pos(sx * ONE, l);
        lemma_div_is_ordered(sx * ONE, l * ONE, l);
        lemma_div_multiples_vanish(ONE as int, l);
    } else {
        let m = -sx;
        assert(0 <= m * ONE <= l * ONE && m * ONE == -(sx * ONE)) by (nonlinear_arith)
            requires
                0 < m <= l && m == -sx && ONE == 10000i64,
        ;
        lemma_div_pos_is_pos(m * ONE, l);
        lemma_div_is_ordered(m * ONE, l * ONE, l);
        lemma_div_multiples_vanish(ONE as int, l);
    }
}

/// Derives the cell's direction from the two raw noise samples: the
/// normalization step of the flow-field builder, total over the whole
/// input domain with the documented fallback for the all-zero sample.
pub fn direction(dx: i64, dy: i64) -> (d: Pt)
    requires
        -DIR_IN_MAX <= dx <= DIR_IN_MAX,
        -DIR_IN_MAX <= dy <= DIR_IN_MAX,
    ensures
        d@ == dir_spec(dx as int, dy as int),
        dx == 0 && dy == 0 ==> d@ == (PtM { x: ONE as int, y: 0 }),
        -ONE <= d.x <= ONE,
        -ONE <= d.y <= ONE,
        ONE * ONE - 5 * ONE <= d.x * d.x + d.y * d.y <= ONE * ONE + 2 * ONE + 1,
{
    proof {
        lemma_direction_unit(dx as int, dy as int);
    }
    if dx == 0 && dy == 0 {
        Pt { x: ONE, y: 0 }
    } else {
        let sx = dx * DIR_UP;
        let sy = dy * DIR_UP;
        proof {
            assert(0 <= (sx as int) * (sx as int) < 0x1000_0000_0000_0000 && 0 <= (sy as int) * (
            sy as int) < 0x1000_0000_0000_0000 && 100000000 <= (sx as int) * (sx as int) + (
            sy as int) * (sy as int) < 0x2000_0000_0000_0000) by (nonlinear_arith)
                requires
                    sx as int == (dx as int) * 10000 && sy as int == (dy as int) * 10000
                        && -80000 <= dx as int <= 80000 && -80000 <= dy as int <= 80000 && !(
                    dx as int == 0 && dy as int == 0),
            ;
        }
        let s_sq: u64 = (sx * sx + sy * sy) as u64;
        let l = isqrt(s_sq);
        proof {
            lemma_sqrt_val(s_sq as int);
            assert(1 <= l as int <= 0x6000_0000 && -(l as int) <= sx as int <= l as int && -(
            l as int) <= sy as int <= l as int) by (nonlinear_arith)
                requires
                    is_sqrt(l as int, s_sq as int) && s_sq as int == (sx as int) * (sx as int) + (
                    sy as int) * (sy as int) && s_sq >= 100000000u64 && s_sq
                        < 0x2000_0000_0000_0000u64,
            ;
            lemma_dir_comp_bound(sx as int, l as int);
            lemma_dir_comp_bound(sy as int, l as int);
        }
        let li: i64 = l as i64;
        Pt { x: tdiv64(sx * ONE, li), y: tdiv64(sy * ONE, li) }
    }
}

/// Division bounds for one normalized component: `tdiv(x * ONE, l)`
/// has magnitude `m` with `l * m <= |x| * ONE < l * (m + 1)`, and at
/// most `ONE` when `|x| <= l`.
proof fn lemma_comp_div_bounds(x: int, l: int)
    requires
        0 < l,
        -l <= x <= l,
    ensures
        ({
            let a = tdiv(x * ONE, l);
            let ax = if x >= 0 {
                x
            } else {
                -x
            };
            let m = if a >= 0 {
                a
            } else {
                -a
            };
            l * m <= ax * ONE && ax * ONE < l * (m + 1) && 0 <= m <= ONE && (x >= 0 ==> a >= 0)
                && (x < 0 ==> a <= 0)
        }),
{
    let ax: int = if x >= 0 {
        x
    } else {
        -x
    };
    assert(0 <= ax * ONE && (x < 0 ==> ax * ONE == -(x * ONE)) && (x >= 0 ==> ax * ONE == x
        * ONE)) by (nonlinear_arith)
        requires
            ax == (if x >= 0 {
                x
            } else {
                -x
            }) && ONE == 10000i64,
    ;
    lemma_fundamental_div_mod(ax * ONE, l);
    lemma_mod_bound(ax * ONE, l);
    lemma_div_pos_is_pos(ax * ONE, l);
    let q = (ax * ONE) / l;
    assert(l * q <= ax * ONE && ax * ONE < l * (q + 1)) by (nonlinear_arith)
        requires
            ax * ONE == l * q + (ax * ONE) % l && 0 <= (ax * ONE) % l < l,
    ;
    assert(ax * ONE <= l * ONE) by (nonlinear_arith)
        requires
            0 <= ax <= l && ONE == 10000i64,
    ;
    assert(q <= ONE) by (nonlinear_arith)
        requires
            l * q <= ax * ONE && ax * ONE <= l * ONE && 0 < l,
    ;
}

/// The derived direction really is a unit vector on the fixed-point
/// raster: its squared length never strays more than a few raw units
/// from `ONE * ONE`, and the all-zero noise sample takes the fallback
/// `(ONE, 0)`, which is exactly unit.
pub proof fn lemma_direction_unit(dx: int, dy: int)
    requires
        -DIR_IN_MAX <= dx <= DIR_IN_MAX,
        -DIR_IN_MAX <= dy <= DIR_IN_MAX,
    ensures
        ({
            let d = dir_spec(dx, dy);
            ONE * ONE - 5 * ONE <= d.x * d.x + d.y * d.y <= ONE * ONE + 2 * ONE + 1
        }),
        dx == 0 && dy == 0 ==> dir_spec(dx, dy) == (PtM { x: ONE as int, y: 0 }),
{
    let d = dir_spec(dx, dy);
    if dx == 0 && dy == 0 {
        assert(d.x * d.x + d.y * d.y == ONE * ONE) by (nonlinear_arith)
            requires
                d.x == 10000 && d.y == 0,
        ;
    } else {
        let sx = dx * DIR_UP;
        let sy = dy * DIR_UP;
        let s = sx * sx + sy * sy;
        assert(-800000000 <= sx <= 800000000 && -800000000 <= sy <= 800000000);
        assert(0 <= sx * sx <= 640000000000000000) by (nonlinear_arith)
            requires
                -800000000 <= sx <= 800000000,
        ;
        assert(0 <= sy * sy <= 640000000000000000) by (nonlinear_arith)
            requires
                -800000000 <= sy <= 800000000,
        ;
        if dx != 0 {
            assert(sx <= -10000 || sx >= 10000);
            assert(sx * sx >= 100000000) by (nonlinear_arith)
                requires
                    sx <= -10000 || sx >= 10000,
            ;
        } else {
            assert(sy <= -10000 || sy >= 10000);
            assert(sy * sy >= 100000000) by (nonlinear_arith)
                requires
                    sy <= -10000 || sy >= 10000,
            ;
        }
        assert(100000000 <= s <= 1280000000000000000);
        let l = sqrt_val(s);
        lemma_sqrt_val(s);
        assert(10000 <= l && -l <= sx <= l && -l <= sy <= l) by (nonlinear_arith)
            requires
                0 <= l && l * l <= s && s < (l + 1) * (l + 1) && s >= 100000000 && sx * sx
                    >= 0 && sy * sy >= 0 && s == sx * sx + sy * sy,
        ;
        lemma_comp_div_bounds(sx, l);
        lemma_comp_div_bounds(sy, l);
        let ax: int = if sx >= 0 {
            sx
        } else {
            -sx
        };
        let ay: int = if sy >= 0 {
            sy
        } else {
            -sy
        };
        let m: int = if d.x >= 0 {
            d.x
        } else {
            -d.x
        };
        let k: int = if d.y >= 0 {
            d.y
        } else {
            -d.y
        };
        assert(d.x * d.x + d.y * d.y == m * m + k * k) by (nonlinear_arith)
            requires
                (m == d.x || m == -d.x) && (k == d.y || k == -d.y) && m >= 0 && k >= 0 && (m
                    == if d.x >= 0 {
                    d.x
                } else {
                    -d.x
                }) && (k == if d.y >= 0 {
                    d.y
                } else {
                    -d.y
                }),
        ;
        // Upper bound: l^2 (m^2 + k^2) <= s * ONE^2 <= (l^2 + 2 l) * ONE^2.
        assert(0 <= l * m && 0 <= l * k) by (nonlinear_arith)
            requires
                0 < l && 0 <= m && 0 <= k,
        ;
        assert((l * m) * (l * m) <= (ax * ONE) * (ax * ONE)) by (nonlinear_arith)
            requires
                0 <= l * m && l * m <= ax * ONE,
        ;
        assert((l * k) * (l * k) <= (ay * ONE) * (ay * ONE)) by (nonlinear_arith)
            requires
                0 <= l * k && l * k <= ay * ONE,
        ;
        assert((ax * ONE) * (ax * ONE) + (ay * ONE) * (ay * ONE) == s * (ONE * ONE))
            by (nonlinear_arith)
            requires
                s == sx * sx + sy * sy && (ax == sx || ax == -sx) && (ay == sy || ay == -sy),
        ;
        assert((l * m) * (l * m) == l * l * (m * m) && (l * k) * (l * k) == l * l * (k * k) && l
            * l * (m * m + k * k) == l * l * (m * m) + l * l * (k * k)) by (nonlinear_arith);
        assert(l * l * (m * m + k * k) <= s * (ONE * ONE));
        assert(m * m + k * k <= ONE * ONE + 2 * ONE) by (nonlinear_arith)
            requires
                l * l * (m * m + k * k) <= s * (ONE * ONE) && s < (l + 1) * (l + 1) && 10000
                    <= l && 0 <= m && 0 <= k && ONE == 10000i64,
        ;
        // Lower bound: l^2 * ONE^2 <= s * ONE^2 < l^2 ((m+1)^2 + (k+1)^2).
        assert(s * (ONE * ONE) < l * l * ((m + 1) * (m + 1) + (k + 1) * (k + 1)))
            by (nonlinear_arith)
            requires
                ax * ONE < l * (m + 1) && ay * ONE < l * (k + 1) && 0 <= m && 0 <= k && 0
                    <= ax && 0 <= ay && 0 < l && s == sx * sx + sy * sy && (ax == sx || ax
                    == -sx) && (ay == sy || ay == -sy) && ONE == 10000i64,
        ;
        assert(ONE * ONE - 5 * ONE <= m * m + k * k) by (nonlinear_arith)
            requires
                s * (ONE * ONE) < l * l * ((m + 1) * (m + 1) + (k + 1) * (k + 1)) && l * l
                    <= s && 0 <= m <= ONE && 0 <= k <= ONE && 0 < l && ONE == 10000i64,
        ;
    }
}

/// The perpendicular of a vector: a quarter turn, which keeps the
/// length exactly.  Applied to the cell direction it yields the normal
/// along which the parallel lines are offset.
pub fn perp(d: Pt) -> (n: Pt)
    requires
        -C_MAX <= d.x <= C_MAX,
        -C_MAX <= d.y <= C_MAX,
    ensures
        n@.x == -d@.y,
        n@.y == d@.x,
{
    Pt { x: -d.y, y: d.x }
}

/// Every point of a segment whose endpoints lie in a rectangle lies in
/// that rectangle: at any parameter `n / d` of the segment, each
/// interpolated coordinate, scaled by the denominator, stays within
/// the rectangle's scaled bounds.  With `clip_seg`'s contract this
/// says the whole clipped segment lies within the cell box.
pub proof fn lemma_seg_in_rect_convex(s: SegM, r: RectM, n: int, d: int)
    requires
        pt_in_rect(s.a, r),
        pt_in_rect(s.b, r),
        0 <= n <= d,
        0 < d,
    ensures
        r.x0 * d <= s.a.x * (d - n) + s.b.x * n <= r.x1 * d,
        r.y0 * d <= s.a.y * (d - n) + s.b.y * n <= r.y1 * d,
{
    assert(r.x0 * d <= s.a.x * (d - n) + s.b.x * n <= r.x1 * d) by (nonlinear_arith)
        requires
            r.x0 <= s.a.x <= r.x1 && r.x0 <= s.b.x <= r.x1 && 0 <= n <= d && 0 < d,
    ;
    assert(r.y0 * d <= s.a.y * (d - n) + s.b.y * n <= r.y1 * d) by (nonlinear_arith)
        requires
            r.y0 <= s.a.y <= r.y1 && r.y0 <= s.b.y <= r.y1 && 0 <= n <= d && 0 < d,
    ;
}

} // verus!
