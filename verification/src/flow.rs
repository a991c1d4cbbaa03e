//! The flow-field line builder.
//!
//! For each rectangular grid cell a direction is derived from two
//! noise samples; a family of parallel segments offset along the
//! perpendicular is built, each clipped to the cell's box, and each
//! emitted with a pen chosen by the pass's color mode.  A cell is
//! skipped by the stride gate, or by a weighted draw that thins cells
//! toward the bottom of the page.
//!
//! Noise samples and random draws arrive as plain fixed-point values
//! in a [`FlowCellRec`]; the builder is a pure function of them, so a
//! fixed seed reproduces the same strokes exactly.

use crate::color::{color_pick_needed, line_pen, line_pen_spec, ColorMode, Pen};
use crate::fx::{
    cdiv, cdiv64, clamp01, clamp01_spec, fx_mul, in01, lemma_tdiv_frac_abs, sqrt_val, tdiv,
    tdiv64, isqrt, ONE,
};
use crate::geom::{
    clip_seg, clip_spec, direction, dir_spec, perp, pt_in_rect, Pt, PtM, Rect, RectM, Seg,
    SegM, C_MAX, DIR_IN_MAX,
};
use vstd::arithmetic::div_mod::{lemma_fundamental_div_mod, lemma_mod_bound};
use vstd::prelude::*;

verus! {

/// Magnitude bound on positions, sizes and offsets fed to the
/// builder; keeps every intermediate coordinate within [`C_MAX`].
pub const COORD_LIMIT: i64 = 20_000_000;

/// The tunable parameters of the flow-field generator.
#[derive(Clone, Copy, PartialEq, Eq, Structural, Debug)]
pub struct FlowParams {
    /// Side of one grid cell before the gutter is taken out.
    pub base_cell_size: i64,
    /// Perpendicular spacing between neighboring lines of a cell.
    pub offset: i64,
    /// Number of grid columns.
    pub columns: usize,
    /// Number of grid rows.
    pub rows: usize,
    /// Scale applied to cell indices before noise sampling; smaller
    /// values give larger flow features.
    pub noise_speed: i64,
}

/// Whether the parameters are within the builder's working range.
pub open spec fn params_wf(p: FlowParams) -> bool {
    1 <= p.base_cell_size <= COORD_LIMIT && 1 <= p.offset <= COORD_LIMIT && 1 <= p.columns
        <= 10000 && 1 <= p.rows <= 10000 && 0 <= p.noise_speed <= ONE
}

impl Default for FlowParams {
    /// The stock parameter set: 20.5 px cells in a 25 by 16 grid,
    /// 0.45 mm line spacing (1.7008 px at 96 dpi) and a slow noise
    /// field.
    fn default() -> (p: FlowParams)
        ensures
            p.base_cell_size == 205000,
            p.offset == 17008,
            p.columns == 25,
            p.rows == 16,
            p.noise_speed == 100,
            params_wf(p),
    {
        FlowParams {
            base_cell_size: 205000,
            offset: 17008,
            columns: 25,
            rows: 16,
            noise_speed: 100,
        }
    }
}

/// One rendering pass over the grid: the cell geometry after the
/// gutter, the stride gate, the color mode, and the extra translation
/// the pass is drawn under.
#[derive(Clone, Copy, PartialEq, Eq, Structural, Debug)]
pub struct FlowPass {
    pub gutter: i64,
    pub cell_size: i64,
    pub offset: i64,
    pub stride: usize,
    pub stride_offset: usize,
    pub mode: ColorMode,
    pub shift: Pt,
}

/// Whether a pass is within the builder's working range.
pub open spec fn pass_wf(pass: FlowPass) -> bool {
    0 <= pass.gutter <= COORD_LIMIT && 1 <= pass.cell_size <= COORD_LIMIT && 1 <= pass.offset
        <= COORD_LIMIT && 1 <= pass.stride && pass.stride <= 0x7fff_ffff && pass.stride_offset
        <= 0x7fff_ffff
}

/// One grid cell as the grid collaborator enumerates it: indices and
/// the top-left corner.
#[derive(Clone, Copy, PartialEq, Eq, Structural, Debug)]
pub struct FlowCell {
    pub column: usize,
    pub row: usize,
    pub pos: Pt,
}

/// Everything one cell needs from outside: the cell itself, the two
/// raw noise samples, the cell's skip draw, and one color pick per
/// candidate line when the mode wants them.
#[derive(Clone, PartialEq, Eq, Debug)]
pub struct FlowCellRec {
    pub cell: FlowCell,
    pub dx: i64,
    pub dy: i64,
    pub skip: bool,
    pub picks: Vec<bool>,
}

/// The model of a cell record.
pub ghost struct FlowCellRecM {
    pub column: int,
    pub row: int,
    pub pos: PtM,
    pub dx: int,
    pub dy: int,
    pub skip: bool,
    pub picks: Seq<bool>,
}

impl View for FlowCellRec {
    type V = FlowCellRecM;

    open spec fn view(&self) -> FlowCellRecM {
        FlowCellRecM {
            column: self.cell.column as int,
            row: self.cell.row as int,
            pos: self.cell.pos@,
            dx: self.dx as int,
            dy: self.dy as int,
            skip: self.skip,
            picks: self.picks@,
        }
    }
}

/// One emitted line segment with its pen.
#[derive(Clone, Copy, PartialEq, Eq, Structural, Debug)]
pub struct Stroke {
    pub pen: Pen,
    pub seg: Seg,
}

/// The model of a stroke.
pub ghost struct StrokeM {
    pub pen: Pen,
    pub seg: SegM,
}

impl View for Stroke {
    type V = StrokeM;

    open spec fn view(&self) -> StrokeM {
        StrokeM { pen: self.pen, seg: self.seg@ }
    }
}

/// Whether the stride gate admits a cell: the index sum falls in the
/// pass's residue class.
pub open spec fn selected_spec(column: int, row: int, stride: int, stride_offset: int) -> bool {
    (column + row) % stride == stride_offset
}

/// The stride gate: a cell is processed exactly when
/// `(column + row) mod stride` equals the pass's stride offset, so two
/// passes with offsets `0` and `1` interleave like a checkerboard.
pub fn cell_selected(column: usize, row: usize, stride: usize, stride_offset: usize) -> (sel:
    bool)
    requires
        1 <= stride,
        column <= 0x3fff_ffff,
        row <= 0x3fff_ffff,
    ensures
        sel == selected_spec(column as int, row as int, stride as int, stride_offset as int),
{
    (column + row) % stride == stride_offset
}

/// A stride of two keeps the cells whose index sum is even when the
/// residue is zero, those whose index sum is odd when it is one, and
/// never both.
pub proof fn lemma_stride_parity(column: int, row: int)
    requires
        0 <= column,
        0 <= row,
    ensures
        selected_spec(column, row, 2, 0) <==> (column + row) % 2 == 0,
        selected_spec(column, row, 2, 1) <==> (column + row) % 2 == 1,
        selected_spec(column, row, 2, 0) <==> !selected_spec(column, row, 2, 1),
{
    lemma_mod_bound(column + row, 2);
}

/// The skip weight of a cell: the squared ratio of the cell's top
/// edge to the page height, clamped into the unit interval so it is a
/// valid probability.  Cells lower on the page are more likely to be
/// skipped.
pub open spec fn skip_weight_spec(y: int, height: int) -> int {
    let q = clamp01_spec(tdiv(y * ONE, height));
    tdiv(q * q, ONE as int)
}

/// Computes the weight of a cell's skip draw.
pub fn skip_weight(y: i64, height: i64) -> (w: i64)
    requires
        0 < height <= C_MAX,
        -C_MAX <= y <= C_MAX,
    ensures
        w == skip_weight_spec(y as int, height as int),
        in01(w as int),
{
    let q = clamp01(tdiv64(y * ONE, height));
    proof {
        lemma_tdiv_frac_abs(q as int, q as int, ONE as int);
    }
    fx_mul(q, q)
}

/// The weight of a line's color pick in a `Gradient` pass: the cell's
/// horizontal position over the page width, clamped into the unit
/// interval.  Pens shade continuously from one side of the page to
/// the other.
pub open spec fn color_weight_spec(x: int, width: int) -> int {
    clamp01_spec(tdiv(x * ONE, width))
}

/// Computes the weight of a line's color pick.
pub fn color_weight(x: i64, width: i64) -> (w: i64)
    requires
        0 < width <= C_MAX,
        -C_MAX <= x <= C_MAX,
    ensures
        w == color_weight_spec(x as int, width as int),
        in01(w as int),
{
    clamp01(tdiv64(x * ONE, width))
}

/// Half of a cell's diagonal: the cell side over the square root of
/// two, on the fixed-point raster.  Lines of twice this length cover
/// the cell whatever their direction.
pub open spec fn half_diag_spec(cell_size: int) -> int {
    sqrt_val((cell_size * cell_size) / 2)
}

/// Computes half of a cell's diagonal.
pub fn half_diag(cell_size: i64) -> (h: i64)
    requires
        0 <= cell_size <= C_MAX,
    ensures
        h == half_diag_spec(cell_size as int),
        0 <= h <= cell_size,
{
    proof {
        assert(0 <= (cell_size as int) * (cell_size as int) < 0x1000_0000_0000_0000)
            by (nonlinear_arith)
            requires
                0 <= cell_size as int <= 0x3000_0000int,
        ;
    }
    let sq: u64 = (cell_size as u64) * (cell_size as u64);
    let h = isqrt(sq / 2);
    proof {
        assert(h as int <= cell_size as int) by (nonlinear_arith)
            requires
                0 <= h as int && 0 <= cell_size as int && (h as int) * (h as int) <= (sq
                    / 2) as int && (sq / 2) as int <= (cell_size as int) * (cell_size as int),
        ;
    }
    h as i64
}

/// The number of offset steps to each side of the center line:
/// `ceil(halfDiag / offset)`, so the family of lines over-covers the
/// cell's diagonal extent.
pub open spec fn steps_spec(cell_size: int, offset: int) -> int {
    cdiv(half_diag_spec(cell_size), offset)
}

/// Computes the step count, with the bound the line loop needs: the
/// farthest line sits within one spacing beyond the half diagonal.
pub fn steps_count(hd: i64, offset: i64) -> (k: i64)
    requires
        0 <= hd <= C_MAX,
        1 <= offset <= C_MAX,
    ensures
        k == cdiv(hd as int, offset as int),
        0 <= k,
        k * offset <= hd + offset,
        k <= hd + offset,
{
    let k = cdiv64(hd, offset);
    proof {
        lemma_fundamental_div_mod(hd + offset - 1, offset as int);
        lemma_mod_bound(hd + offset - 1, offset as int);
        assert((offset as int) * cdiv(hd as int, offset as int) == cdiv(hd as int, offset as int)
            * (offset as int)) by (nonlinear_arith);
        assert(k as int <= hd + offset) by (nonlinear_arith)
            requires
                (offset as int) * (k as int) <= hd + offset - 1 && 1 <= offset as int && 0
                    <= k as int,
        ;
    }
    k
}

/// The box a cell's lines are clipped to: the cell's square.
pub open spec fn cell_rect_spec(cell_size: int, pos: PtM) -> RectM {
    RectM { x0: pos.x, y0: pos.y, x1: pos.x + cell_size, y1: pos.y + cell_size }
}

/// The candidate line of step index `j` (counted from `0` so that the
/// center line is at `j == steps`), clipped to the cell: `None` when
/// it misses the cell box.
/// The unclipped candidate line of step index `j`.
pub open spec fn line_base_seg(pass: FlowPass, rec: FlowCellRecM, j: int) -> SegM {
    let steps = steps_spec(pass.cell_size as int, pass.offset as int);
    let k = j - steps;
    let d = dir_spec(rec.dx, rec.dy);
    let nv = PtM { x: -d.y, y: d.x };
    let hd = half_diag_spec(pass.cell_size as int);
    let cx = rec.pos.x + tdiv(pass.cell_size as int, 2);
    let cy = rec.pos.y + tdiv(pass.cell_size as int, 2);
    let px = cx + tdiv(nv.x * (k * pass.offset), ONE as int);
    let py = cy + tdiv(nv.y * (k * pass.offset), ONE as int);
    SegM {
        a: PtM { x: px - tdiv(d.x * hd, ONE as int), y: py - tdiv(d.y * hd, ONE as int) },
        b: PtM { x: px + tdiv(d.x * hd, ONE as int), y: py + tdiv(d.y * hd, ONE as int) },
    }
}

pub open spec fn line_seg_spec(pass: FlowPass, rec: FlowCellRecM, j: int) -> Option<SegM> {
    clip_spec(line_base_seg(pass, rec, j), cell_rect_spec(pass.cell_size as int, rec.pos))
}

/// The pick consumed by line `j`: the cell's `j`-th stored draw in a
/// `Gradient` pass, nothing in a `Fixed` pass.
pub open spec fn line_pick_spec(mode: ColorMode, picks: Seq<bool>, j: int) -> bool {
    match mode {
        ColorMode::Gradient(_, _) => picks[j],
        ColorMode::Fixed(_) => false,
    }
}

/// The strokes of the first `j` candidate lines of a cell, in step
/// order, lines that miss the cell box dropped.
pub open spec fn lines_upto_spec(pass: FlowPass, rec: FlowCellRecM, j: int) -> Seq<StrokeM>
    decreases j,
{
    if j <= 0 {
        Seq::empty()
    } else {
        let prev = lines_upto_spec(pass, rec, j - 1);
        match line_seg_spec(pass, rec, j - 1) {
            Option::None => prev,
            Option::Some(c) => prev.push(
                StrokeM {
                    pen: line_pen_spec(pass.mode, line_pick_spec(pass.mode, rec.picks, j - 1)),
                    seg: c,
                },
            ),
        }
    }
}

/// How many color picks a cell consumes: one per candidate line in a
/// `Gradient` pass on a cell that is neither stride-gated nor
/// skipped; none otherwise.  A `Fixed` pass consumes no color
/// randomness at all.
pub open spec fn picks_needed_spec(pass: FlowPass, rec: FlowCellRecM) -> int {
    if selected_spec(rec.column, rec.row, pass.stride as int, pass.stride_offset as int)
        && !rec.skip && (pass.mode matches ColorMode::Gradient(_, _)) {
        2 * steps_spec(pass.cell_size as int, pass.offset as int) + 1
    } else {
        0
    }
}

/// Whether a cell record is within the builder's working range and
/// carries exactly the draws its cell consumes.
pub open spec fn rec_wf(pass: FlowPass, rec: FlowCellRecM) -> bool {
    0 <= rec.column <= 0x3fff_ffff && 0 <= rec.row <= 0x3fff_ffff && -COORD_LIMIT <= rec.pos.x
        <= COORD_LIMIT && -COORD_LIMIT <= rec.pos.y <= COORD_LIMIT && -DIR_IN_MAX <= rec.dx
        <= DIR_IN_MAX && -DIR_IN_MAX <= rec.dy <= DIR_IN_MAX && rec.picks.len()
        == picks_needed_spec(pass, rec)
}

/// Everything one processed cell emits: nothing when the stride gate
/// or the skip draw rejects the cell, else one stroke per candidate
/// line that meets the cell box.
pub open spec fn cell_strokes_spec(pass: FlowPass, rec: FlowCellRecM) -> Seq<StrokeM> {
    if !selected_spec(rec.column, rec.row, pass.stride as int, pass.stride_offset as int)
        || rec.skip {
        Seq::empty()
    } else {
        lines_upto_spec(
            pass,
            rec,
            2 * steps_spec(pass.cell_size as int, pass.offset as int) + 1,
        )
    }
}

/// Builds all strokes of one cell.  The result is pinned exactly by
/// `cell_strokes_spec`, a pure function of the cell record and the
/// pass: the builder is deterministic given its draws.
#[verifier::rlimit(80)]
pub fn build_cell_strokes(pass: &FlowPass, rec: &FlowCellRec) -> (out: Vec<Stroke>)
    requires
        pass_wf(*pass),
        rec_wf(*pass, rec@),
    ensures
        out@.map_values(|s: Stroke| s@) == cell_strokes_spec(*pass, rec@),
{
    let sel = cell_selected(rec.cell.column, rec.cell.row, pass.stride, pass.stride_offset);
    if !sel || rec.skip {
        let out: Vec<Stroke> = Vec::new();
        proof {
            assert(out@.map_values(|s: Stroke| s@) =~= cell_strokes_spec(*pass, rec@));
        }
        return out;
    }
    let cs = pass.cell_size;
    let hd = half_diag(cs);
    let steps = steps_count(hd, pass.offset);
    let d = direction(rec.dx, rec.dy);
    let nv = perp(d);
    let half = tdiv64(cs, 2);
    let cx = rec.cell.pos.x + half;
    let cy = rec.cell.pos.y + half;
    proof {
        lemma_tdiv_frac_abs(hd as int, d.x as int, ONE as int);
        lemma_tdiv_frac_abs(hd as int, d.y as int, ONE as int);
        assert((d.x as int) * (hd as int) == (hd as int) * (d.x as int) && (d.y as int) * (
        hd as int) == (hd as int) * (d.y as int) && -100000000000000 <= (d.x as int) * (
        hd as int) <= 100000000000000 && -100000000000000 <= (d.y as int) * (hd as int)
            <= 100000000000000) by (nonlinear_arith)
            requires
                -10000 <= d.x as int <= 10000 && -10000 <= d.y as int <= 10000 && 0 <= hd as int
                    <= 0x3000_0000int,
        ;
    }
    let dxh = tdiv64(d.x * hd, ONE);
    let dyh = tdiv64(d.y * hd, ONE);
    let rect = Rect { x0: rec.cell.pos.x, y0: rec.cell.pos.y, x1: rec.cell.pos.x + cs, y1: rec.cell.pos.y + cs };
    let n_lines = 2 * steps + 1;
    let gradient = color_pick_needed(&pass.mode);
    let mut out: Vec<Stroke> = Vec::new();
    let mut j: i64 = 0;
    proof {
        assert(out@.map_values(|s: Stroke| s@) =~= lines_upto_spec(*pass, rec@, 0));
    }
    while j < n_lines
        invariant
            pass_wf(*pass),
            rec_wf(*pass, rec@),
            selected_spec(rec@.column, rec@.row, pass.stride as int, pass.stride_offset as int),
            !rec@.skip,
            0 <= j <= n_lines,
            cs == pass.cell_size,
            hd == half_diag_spec(cs as int),
            0 <= hd <= cs,
            steps == steps_spec(cs as int, pass.offset as int),
            0 <= steps,
            steps * pass.offset <= hd + pass.offset,
            steps <= hd + pass.offset,
            n_lines == 2 * steps + 1,
            d@ == dir_spec(rec@.dx, rec@.dy),
            -ONE <= d.x <= ONE,
            -ONE <= d.y <= ONE,
            nv.x == -d.y && nv.y == d.x,
            half == tdiv(cs as int, 2),
            0 <= half <= cs,
            cx == rec@.pos.x + half,
            cy == rec@.pos.y + half,
            dxh == tdiv(d.x as int * hd, ONE as int),
            dyh == tdiv(d.y as int * hd, ONE as int),
            -hd <= dxh <= hd,
            -hd <= dyh <= hd,
            rect@ == cell_rect_spec(cs as int, rec@.pos),
            gradient == (pass.mode matches ColorMode::Gradient(_, _)),
            out@.map_values(|s: Stroke| s@) == lines_upto_spec(*pass, rec@, j as int),
        decreases n_lines - j,
    {
        let k = j - steps;
        proof {
            assert(-(hd + pass.offset) <= (k as int) * (pass.offset as int) <= hd + pass.offset)
                by (nonlinear_arith)
                requires
                    -(steps as int) <= k as int <= steps as int && (steps as int) * (
                    pass.offset as int) <= hd + pass.offset && 1 <= pass.offset as int && 0
                        <= steps as int,
            ;
            lemma_tdiv_frac_abs((k as int) * (pass.offset as int), nv.x as int, ONE as int);
            lemma_tdiv_frac_abs((k as int) * (pass.offset as int), nv.y as int, ONE as int);
            assert((nv.x as int) * ((k as int) * (pass.offset as int)) == ((k as int) * (
            pass.offset as int)) * (nv.x as int) && (nv.y as int) * ((k as int) * (
            pass.offset as int)) == ((k as int) * (pass.offset as int)) * (nv.y as int))
                by (nonlinear_arith);
        }
        let koff = k * pass.offset;
        let px = cx + tdiv64(nv.x * koff, ONE);
        let py = cy + tdiv64(nv.y * koff, ONE);
        let seg = Seg {
            a: Pt { x: px - dxh, y: py - dyh },
            b: Pt { x: px + dxh, y: py + dyh },
        };
        let clipped = clip_seg(seg, rect);
        match clipped {
            Option::None => {
                proof {
                    assert(line_seg_spec(*pass, rec@, j as int) == Option::<SegM>::None);
                }
            },
            Option::Some(c) => {
                let pick = if gradient {
                    rec.picks[j as usize]
                } else {
                    false
                };
                let pen = line_pen(&pass.mode, pick);
                out.push(Stroke { pen, seg: c });
                proof {
                    assert(line_seg_spec(*pass, rec@, j as int) == Option::Some(c@));
                    assert(pick == line_pick_spec(pass.mode, rec@.picks, j as int));
                    assert(out@.map_values(|s: Stroke| s@) =~= lines_upto_spec(
                        *pass,
                        rec@,
                        j as int + 1,
                    ));
                }
            },
        }
        j = j + 1;
    }
    out
}

/// The strokes of the first `i` cells of a run, in traversal order.
pub open spec fn pattern_upto_spec(pass: FlowPass, recs: Seq<FlowCellRecM>, i: int) -> Seq<
    StrokeM,
>
    decreases i,
{
    if i <= 0 {
        Seq::empty()
    } else {
        pattern_upto_spec(pass, recs, i - 1) + cell_strokes_spec(pass, recs[i - 1])
    }
}

/// The whole run: every cell's strokes, cells in traversal order.
pub open spec fn flow_pattern_spec(pass: FlowPass, recs: Seq<FlowCellRecM>) -> Seq<StrokeM> {
    pattern_upto_spec(pass, recs, recs.len() as int)
}

/// Runs one pass over all cells: the pattern driver.  The output is
/// pinned exactly by `flow_pattern_spec`, so a run is a pure function
/// of the cell records handed in.
pub fn flow_pattern(pass: &FlowPass, recs: &Vec<FlowCellRec>) -> (out: Vec<Stroke>)
    requires
        pass_wf(*pass),
        forall|i: int| 0 <= i < recs@.len() ==> rec_wf(*pass, #[trigger] recs@[i]@),
    ensures
        out@.map_values(|s: Stroke| s@) == flow_pattern_spec(
            *pass,
            recs@.map_values(|r: FlowCellRec| r@),
        ),
{
    let ghost recs_m = recs@.map_values(|r: FlowCellRec| r@);
    let mut out: Vec<Stroke> = Vec::new();
    let mut i: usize = 0;
    proof {
        assert(out@.map_values(|s: Stroke| s@) =~= pattern_upto_spec(*pass, recs_m, 0));
    }
    while i < recs.len()
        invariant
            pass_wf(*pass),
            forall|k: int| 0 <= k < recs@.len() ==> rec_wf(*pass, #[trigger] recs@[k]@),
            recs_m == recs@.map_values(|r: FlowCellRec| r@),
            0 <= i <= recs@.len(),
            out@.map_values(|s: Stroke| s@) == pattern_upto_spec(*pass, recs_m, i as int),
        decreases recs@.len() - i,
    {
        let mut chunk = build_cell_strokes(pass, &recs[i]);
        out.append(&mut chunk);
        proof {
            assert(out@.map_values(|s: Stroke| s@) =~= pattern_upto_spec(
                *pass,
                recs_m,
                i as int + 1,
            ));
        }
        i = i + 1;
    }
    out
}

/// Two runs with the same pass and the same cell records emit the
/// same strokes.  Together with `flow_pattern`'s contract, which pins
/// its output to `flow_pattern_spec` alone, a fixed seed (hence fixed
/// noise samples and draws) reproduces the output exactly.
pub proof fn lemma_flow_deterministic(
    pass1: FlowPass,
    recs1: Seq<FlowCellRecM>,
    pass2: FlowPass,
    recs2: Seq<FlowCellRecM>,
)
    requires
        pass1 == pass2,
        recs1 == recs2,
    ensures
        flow_pattern_spec(pass1, recs1) == flow_pattern_spec(pass2, recs2),
{
}

/// Both endpoints of every stroke of the first `j` candidate lines
/// lie in the cell box.
proof fn lemma_lines_upto_in_rect(pass: FlowPass, rec: FlowCellRecM, j: int, i: int)
    requires
        0 <= pass.cell_size,
        0 <= i < lines_upto_spec(pass, rec, j).len(),
    ensures
        pt_in_rect(lines_upto_spec(pass, rec, j)[i].seg.a, cell_rect_spec(pass.cell_size as int, rec.pos)),
        pt_in_rect(lines_upto_spec(pass, rec, j)[i].seg.b, cell_rect_spec(pass.cell_size as int, rec.pos)),
    decreases j,
{
    let prev = lines_upto_spec(pass, rec, j - 1);
    if i < prev.len() {
        lemma_lines_upto_in_rect(pass, rec, j - 1, i);
    } else {
        crate::geom::lemma_clip_spec_in_rect(
            line_base_seg(pass, rec, j - 1),
            cell_rect_spec(pass.cell_size as int, rec.pos),
        );
    }
}

/// Clip correctness over a whole cell: every point of every emitted
/// stroke lies within the cell's box `[x, x + size] × [y, y + size]`
/// (the endpoints directly; interior points by
/// `geom::lemma_seg_in_rect_convex`).
pub proof fn lemma_cell_strokes_in_rect(pass: FlowPass, rec: FlowCellRecM, i: int)
    requires
        0 <= pass.cell_size,
        0 <= i < cell_strokes_spec(pass, rec).len(),
    ensures
        pt_in_rect(cell_strokes_spec(pass, rec)[i].seg.a, cell_rect_spec(pass.cell_size as int, rec.pos)),
        pt_in_rect(cell_strokes_spec(pass, rec)[i].seg.b, cell_rect_spec(pass.cell_size as int, rec.pos)),
{
    lemma_lines_upto_in_rect(
        pass,
        rec,
        2 * steps_spec(pass.cell_size as int, pass.offset as int) + 1,
        i,
    );
}

/// Every stroke of the first `j` candidate lines carries the fixed
/// pen.
proof fn lemma_lines_upto_fixed_pen(pass: FlowPass, rec: FlowCellRecM, pen: Pen, j: int, i: int)
    requires
        pass.mode == ColorMode::Fixed(pen),
        0 <= i < lines_upto_spec(pass, rec, j).len(),
    ensures
        lines_upto_spec(pass, rec, j)[i].pen == pen,
    decreases j,
{
    let prev = lines_upto_spec(pass, rec, j - 1);
    if i < prev.len() {
        lemma_lines_upto_fixed_pen(pass, rec, pen, j - 1, i);
    }
}

/// In a `Fixed` pass every emitted stroke carries the constant pen,
/// and the cell consumes no color randomness at all.
pub proof fn lemma_fixed_mode_pen(pass: FlowPass, rec: FlowCellRecM, pen: Pen, i: int)
    requires
        pass.mode == ColorMode::Fixed(pen),
        0 <= i < cell_strokes_spec(pass, rec).len(),
    ensures
        cell_strokes_spec(pass, rec)[i].pen == pen,
        picks_needed_spec(pass, rec) == 0,
{
    lemma_lines_upto_fixed_pen(
        pass,
        rec,
        pen,
        2 * steps_spec(pass.cell_size as int, pass.offset as int) + 1,
        i,
    );
}

/// The two stock passes of the flow-field generator, derived from the
/// parameters: a stride-two `Gradient` pass on the even cells, and an
/// interleaved stride-two `Fixed` gray pass on the odd cells, drawn
/// inside a quarter-cell gutter.
pub fn flow_passes(p: &FlowParams) -> (passes: (FlowPass, FlowPass))
    requires
        params_wf(*p),
    ensures
        passes.0 == (FlowPass {
            gutter: 0,
            cell_size: p.base_cell_size,
            offset: p.offset,
            stride: 2,
            stride_offset: 0,
            mode: ColorMode::Gradient(
                Pen { layer: 2, color: crate::color::Ink::Red },
                Pen { layer: 3, color: crate::color::Ink::DarkRed },
            ),
            shift: Pt { x: 0, y: 0 },
        }),
        passes.1.gutter == tdiv(p.base_cell_size as int, 4),
        passes.1.cell_size == p.base_cell_size - passes.1.gutter,
        passes.1.offset == p.offset,
        passes.1.stride == 2,
        passes.1.stride_offset == 1,
        passes.1.mode == ColorMode::Fixed(
            Pen { layer: 1, color: crate::color::Ink::Gray(200) },
        ),
        passes.1.shift == (Pt { x: passes.1.gutter, y: passes.1.gutter }),
        pass_wf(passes.0),
        pass_wf(passes.1),
{
    let gutter = tdiv64(p.base_cell_size, 4);
    proof {
        vstd::arithmetic::div_mod::lemma_div_is_strictly_smaller(p.base_cell_size as int, 4);
        vstd::arithmetic::div_mod::lemma_div_pos_is_pos(p.base_cell_size as int, 4);
    }
    let first = FlowPass {
        gutter: 0,
        cell_size: p.base_cell_size,
        offset: p.offset,
        stride: 2,
        stride_offset: 0,
        mode: ColorMode::Gradient(
            Pen { layer: 2, color: crate::color::Ink::Red },
            Pen { layer: 3, color: crate::color::Ink::DarkRed },
        ),
        shift: Pt { x: 0, y: 0 },
    };
    let second = FlowPass {
        gutter,
        cell_size: p.base_cell_size - gutter,
        offset: p.offset,
        stride: 2,
        stride_offset: 1,
        mode: ColorMode::Fixed(Pen { layer: 1, color: crate::color::Ink::Gray(200) }),
        shift: Pt { x: gutter, y: gutter },
    };
    (first, second)
}

/// The translation that centers the grid on the page.
pub fn grid_origin(page_w: i64, page_h: i64, p: &FlowParams) -> (o: Pt)
    requires
        params_wf(*p),
        -COORD_LIMIT <= page_w <= COORD_LIMIT,
        -COORD_LIMIT <= page_h <= COORD_LIMIT,
    ensures
        o@.x == tdiv(page_w - p.columns * p.base_cell_size, 2),
        o@.y == tdiv(page_h - p.rows * p.base_cell_size, 2),
{
    proof {
        assert(0 <= (p.columns as int) * (p.base_cell_size as int) <= 200000000000 && 0 <= (
        p.rows as int) * (p.base_cell_size as int) <= 200000000000) by (nonlinear_arith)
            requires
                1 <= p.columns as int <= 10000 && 1 <= p.rows as int <= 10000 && 1
                    <= p.base_cell_size as int <= 20000000,
        ;
    }
    let gw = (p.columns as i64) * p.base_cell_size;
    let gh = (p.rows as i64) * p.base_cell_size;
    Pt { x: tdiv64(page_w - gw, 2), y: tdiv64(page_h - gh, 2) }
}

/// Where the grid collaborator places a cell: indices scaled by the
/// cell size plus its spacing.
pub fn rect_grid_pos(column: usize, row: usize, cell_size: i64, spacing: i64) -> (pos: Pt)
    requires
        column <= 10000,
        row <= 10000,
        0 <= cell_size <= COORD_LIMIT,
        0 <= spacing <= COORD_LIMIT,
    ensures
        pos@.x == column * (cell_size + spacing),
        pos@.y == row * (cell_size + spacing),
{
    proof {
        assert(0 <= (column as int) * (cell_size as int + spacing as int) <= 400000000000 && 0
            <= (row as int) * (cell_size as int + spacing as int) <= 400000000000)
            by (nonlinear_arith)
            requires
                column as int <= 10000 && row as int <= 10000 && 0 <= cell_size as int
                    + spacing as int <= 40000000,
        ;
    }
    Pt {
        x: (column as i64) * (cell_size + spacing),
        y: (row as i64) * (cell_size + spacing),
    }
}

/// The two noise coordinates of a cell, deliberately cross-offset:
/// the horizontal channel is sampled with the random offset added to
/// its second coordinate and the vertical channel with the other
/// offset added to its first, so the direction field is not the noise
/// gradient and shows no axis alignment.
pub fn flow_noise_coords(column: usize, row: usize, speed: i64, off_x: i64, off_y: i64) -> (c: (
    Pt,
    Pt,
))
    requires
        column <= 10000,
        row <= 10000,
        0 <= speed <= ONE,
        0 <= off_x <= 1000000,
        0 <= off_y <= 1000000,
    ensures
        c.0@.x == column * speed,
        c.0@.y == row * speed + off_x,
        c.1@.x == column * speed + off_y,
        c.1@.y == row * speed,
{
    proof {
        assert(0 <= (column as int) * (speed as int) <= 100000000 && 0 <= (row as int) * (
        speed as int) <= 100000000) by (nonlinear_arith)
            requires
                column as int <= 10000 && row as int <= 10000 && 0 <= speed as int <= 10000,
        ;
    }
    let cx = (column as i64) * speed;
    let cy = (row as i64) * speed;
    (Pt { x: cx, y: cy + off_x }, Pt { x: cx + off_y, y: cy })
}

} // verus!
