//! The radial-ramp dash builder.
//!
//! Each hexagonal cell gets a tone: a radial brightness ramp from the
//! page center, reparametrized by gain and offset, blended with a
//! noise sample.  A bright cell keeps its solid outline; a darker one
//! is cut into a randomized six-entry dash pattern whose on-runs
//! shrink and off-runs grow as the tone falls.  Independently, the
//! cell's column picks one of three pens, jittered so the three bands
//! blend into each other.
//!
//! As in the flow-field builder, noise samples and random draws
//! arrive as plain fixed-point values and the builder is a pure
//! function of them.

use crate::color::{Ink, Pen};
use crate::fx::{
    cdiv, clamp01, clamp01_spec, fx_mul_up, in01, lemma_cdiv_pos, lemma_cdiv_upper,
    lemma_tdiv_abs_le, lemma_tdiv_frac_bound, sqrt_val, tdiv, tdiv64, isqrt, ONE,
};
use vstd::arithmetic::div_mod::lemma_div_is_ordered;
use crate::flow::COORD_LIMIT;
use crate::geom::{Pt, PtM, DIR_IN_MAX};
use vstd::prelude::*;

verus! {

/// Half a unit: the fixed-point value of one half.
pub const HALF_UNIT: i64 = 5000;

/// Tones at or above this threshold keep the solid outline; lower
/// tones are dashed.
pub const SOLID_TONE: i64 = 7500;

/// The tunable parameters of the hex-cell generator.
#[derive(Clone, Copy, PartialEq, Eq, Structural, Debug)]
pub struct HexParams {
    pub columns: usize,
    pub rows: usize,
    /// Circumradius of one hex cell.
    pub cell_size: i64,
    /// Gap between neighboring cells.
    pub spacing: i64,
    /// Scale applied to coordinates before noise sampling.
    pub noise_frequency: i64,
    pub noise_offset: i64,
    pub noise_gain: i64,
    pub ramp_offset: i64,
    pub ramp_gain: i64,
    /// Base dash period.
    pub dash_size: i64,
    /// Relative jitter applied to each dash entry, in `[0, 1]`.
    pub dash_randomness: i64,
}

/// Whether the parameters are within the builder's working range.
pub open spec fn hex_params_wf(p: HexParams) -> bool {
    1 <= p.columns <= 10000 && 1 <= p.rows <= 10000 && 1 <= p.cell_size <= COORD_LIMIT && 0
        <= p.spacing <= COORD_LIMIT && 0 <= p.noise_frequency <= ONE && -ONE <= p.noise_offset
        <= ONE && 0 <= p.noise_gain <= 1000000 && -ONE <= p.ramp_offset <= ONE && 0
        <= p.ramp_gain <= 1000000 && 1 <= p.dash_size <= COORD_LIMIT && 0 <= p.dash_randomness
        <= ONE
}

impl Default for HexParams {
    /// The stock parameter set: a 16 by 13 pointy hex grid of 0.42 cm
    /// cells with 0.65 mm spacing (15.874 px and 2.4567 px at 96
    /// dpi), a slow noise field and strongly jittered 0.57 mm dashes.
    fn default() -> (p: HexParams)
        ensures
            p == (HexParams {
                columns: 16,
                rows: 13,
                cell_size: 158740,
                spacing: 24567,
                noise_frequency: 55,
                noise_offset: 4200,
                noise_gain: 8000,
                ramp_offset: 1900,
                ramp_gain: 32000,
                dash_size: 21543,
                dash_randomness: 8000,
            }),
            hex_params_wf(p),
    {
        HexParams {
            columns: 16,
            rows: 13,
            cell_size: 158740,
            spacing: 24567,
            noise_frequency: 55,
            noise_offset: 4200,
            noise_gain: 8000,
            ramp_offset: 1900,
            ramp_gain: 32000,
            dash_size: 21543,
            dash_randomness: 8000,
        }
    }
}

/// A coordinate as a fraction of the page extent.
pub open spec fn unit_pos_spec(c: int, extent: int) -> int {
    tdiv(c * ONE, extent)
}

/// Normalizes a coordinate that lies on the page into `[0, ONE]`.
pub fn unit_pos(c: i64, extent: i64) -> (u: i64)
    requires
        0 < extent <= COORD_LIMIT,
        0 <= c <= extent,
    ensures
        u == unit_pos_spec(c as int, extent as int),
        in01(u as int),
{
    proof {
        assert((c as int) * ONE == ONE * (c as int)) by (nonlinear_arith);
        lemma_tdiv_frac_bound(ONE as int, c as int, extent as int);
    }
    tdiv64(c * ONE, extent)
}

/// The radial ramp of a cell at normalized center `(u, v)`: twice the
/// distance from the page center, shifted, then reparametrized around
/// one half by the ramp gain, and clamped into the unit interval.
pub open spec fn ramp_spec(u: int, v: int, ramp_offset: int, ramp_gain: int) -> int {
    let du = u - HALF_UNIT;
    let dv = v - HALF_UNIT;
    let ramp0 = 2 * sqrt_val(du * du + dv * dv) + ramp_offset;
    clamp01_spec(tdiv((ramp0 - HALF_UNIT) * ramp_gain, ONE as int) + HALF_UNIT)
}

/// Computes the radial ramp.  Whatever the gain and offset, the
/// result is clamped into `[0, ONE]`.
pub fn ramp_value(u: i64, v: i64, ramp_offset: i64, ramp_gain: i64) -> (r: i64)
    requires
        in01(u as int),
        in01(v as int),
        -ONE <= ramp_offset <= ONE,
        0 <= ramp_gain <= 1000000,
    ensures
        r == ramp_spec(u as int, v as int, ramp_offset as int, ramp_gain as int),
        in01(r as int),
{
    let du = u - HALF_UNIT;
    let dv = v - HALF_UNIT;
    proof {
        assert(0 <= (du as int) * (du as int) <= 25000000 && 0 <= (dv as int) * (dv as int)
            <= 25000000 && 0 <= (du as int) * (du as int) + (dv as int) * (dv as int)
            <= 50000000) by (nonlinear_arith)
            requires
                -5000 <= du as int <= 5000 && -5000 <= dv as int <= 5000,
        ;
    }
    let s: u64 = (du * du + dv * dv) as u64;
    let hyp64 = isqrt(s);
    proof {
        assert(hyp64 as int <= 7071) by (nonlinear_arith)
            requires
                0 <= hyp64 as int && (hyp64 as int) * (hyp64 as int) <= 50000000,
        ;
    }
    let hyp = hyp64 as i64;
    let ramp0 = 2 * hyp + ramp_offset;
    proof {
        assert(-100000000000 <= (ramp0 as int - HALF_UNIT) * (ramp_gain as int)
            <= 100000000000) by (nonlinear_arith)
            requires
                -20000 <= ramp0 as int - HALF_UNIT <= 20000 && 0 <= ramp_gain as int
                    <= 1000000,
        ;
        lemma_tdiv_abs_le((ramp0 as int - HALF_UNIT) * ramp_gain, ONE as int);
    }
    let t = tdiv64((ramp0 - HALF_UNIT) * ramp_gain, ONE);
    clamp01(t + HALF_UNIT)
}

/// The tone of a cell: one minus the gained and offset noise sample
/// scaled by the ramp, clamped into the unit interval.  Low tones
/// stand for faint cells that will be dashed sparsely.
pub open spec fn tone_spec(noise_val: int, noise_gain: int, noise_offset: int, ramp: int) -> int {
    clamp01_spec(
        ONE - tdiv((tdiv(noise_gain * noise_val, ONE as int) + noise_offset) * ramp, ONE as int),
    )
}

/// Computes the tone.  Whatever the gain and offset, the result is
/// clamped into `[0, ONE]`.
pub fn tone_value(noise_val: i64, noise_gain: i64, noise_offset: i64, ramp: i64) -> (t: i64)
    requires
        -DIR_IN_MAX <= noise_val <= DIR_IN_MAX,
        0 <= noise_gain <= 1000000,
        -ONE <= noise_offset <= ONE,
        in01(ramp as int),
    ensures
        t == tone_spec(noise_val as int, noise_gain as int, noise_offset as int, ramp as int),
        in01(t as int),
{
    proof {
        assert(-100000000000 <= (noise_gain as int) * (noise_val as int) <= 100000000000)
            by (nonlinear_arith)
            requires
                0 <= noise_gain as int <= 1000000 && -80000 <= noise_val as int <= 80000,
        ;
        lemma_tdiv_abs_le((noise_gain as int) * (noise_val as int), ONE as int);
    }
    let g = tdiv64(noise_gain * noise_val, ONE);
    proof {
        assert(-2000000000000000000 <= (g as int + noise_offset) * (ramp as int)
            <= 2000000000000000000) by (nonlinear_arith)
            requires
                -100000000001 <= g as int + noise_offset <= 100000000001 && 0 <= ramp as int
                    <= 10000,
        ;
        lemma_tdiv_abs_le((g as int + noise_offset) * (ramp as int), ONE as int);
    }
    let scaled = tdiv64((g + noise_offset) * ramp, ONE);
    clamp01(ONE - scaled)
}

/// Whether the column banding applies: only grids wider than one
/// column consume a band jitter draw.
pub fn band_wanted(columns: usize) -> (b: bool)
    ensures
        b == (columns > 1),
{
    columns > 1
}

/// The pen of a cell: the column's position across the grid, jittered
/// and clamped, bucketed into three equal bands — dark red on the
/// left, red in the middle, gold on the right.
pub open spec fn band_spec(column: int, columns: int, jitter: int) -> Pen {
    let val = clamp01_spec(tdiv(column * ONE, columns - 1) + jitter);
    if val < 3333 {
        Pen { layer: 1, color: Ink::DarkRed }
    } else if val < 6666 {
        Pen { layer: 2, color: Ink::Red }
    } else {
        Pen { layer: 3, color: Ink::Gold }
    }
}

/// Picks a cell's pen from its column.
pub fn color_band(column: usize, columns: usize, jitter: i64) -> (pen: Pen)
    requires
        2 <= columns <= 10000,
        column <= 10000,
        -2000 <= jitter <= 2000,
    ensures
        pen == band_spec(column as int, columns as int, jitter as int),
{
    proof {
        assert(0 <= (column as int) * ONE <= 100000000) by (nonlinear_arith)
            requires
                0 <= column as int <= 10000 && ONE == 10000i64,
        ;
        lemma_tdiv_abs_le((column as int) * ONE, columns as int - 1);
    }
    let q = tdiv64((column as i64) * ONE, (columns - 1) as i64);
    let val = clamp01(q + jitter);
    if val < 3333 {
        Pen { layer: 1, color: Ink::DarkRed }
    } else if val < 6666 {
        Pen { layer: 2, color: Ink::Red }
    } else {
        Pen { layer: 3, color: Ink::Gold }
    }
}

/// A dash pattern: six alternating on/off run lengths and the phase
/// the cut starts at.
#[derive(Clone, PartialEq, Eq, Debug)]
pub struct DashPattern {
    pub lens: Vec<i64>,
    pub phase: i64,
}

/// The model of a dash pattern.
pub ghost struct DashPatternM {
    pub lens: Seq<int>,
    pub phase: int,
}

impl View for DashPattern {
    type V = DashPatternM;

    open spec fn view(&self) -> DashPatternM {
        DashPatternM { lens: self.lens@.map_values(|x: i64| x as int), phase: self.phase as int }
    }
}

/// What a cell's outline becomes: kept solid, or cut by a dash
/// pattern.
#[derive(Clone, PartialEq, Eq, Debug)]
pub enum CellAction {
    Solid,
    Dashed(DashPattern),
}

/// The model of a cell action.
pub ghost enum CellActionM {
    Solid,
    Dashed(DashPatternM),
}

impl View for CellAction {
    type V = CellActionM;

    open spec fn view(&self) -> CellActionM {
        match self {
            CellAction::Solid => CellActionM::Solid,
            CellAction::Dashed(d) => CellActionM::Dashed(d@),
        }
    }
}

/// The dash period of a cell: the base dash size scaled by the cell's
/// size draw, rounded up so it never vanishes.
pub open spec fn dash_px_spec(dash_size: int, size_draw: int) -> int {
    cdiv(dash_size * size_draw, ONE as int)
}

/// The visible run length before jitter: the tone's share of the
/// period.
pub open spec fn dash_on_spec(tone: int, dash_px: int) -> int {
    cdiv(tone * dash_px, ONE as int)
}

/// The gap length before jitter: twice the complementary share, so a
/// faint cell's outline breaks into sparse short runs.
pub open spec fn dash_off_spec(tone: int, dash_px: int) -> int {
    cdiv(2 * (ONE - tone) * dash_px, ONE as int)
}

/// One entry of the six-entry pattern: the alternating on/off base
/// length scaled by that entry's jitter draw, rounded up.
pub open spec fn dash_len_spec(tone: int, dash_px: int, jitters: Seq<int>, i: int) -> int {
    let base = if i % 2 == 0 {
        dash_on_spec(tone, dash_px)
    } else {
        dash_off_spec(tone, dash_px)
    };
    cdiv(base * jitters[i], ONE as int)
}

/// What a cell's outline becomes, from its tone and dash draws: kept
/// solid at tones of three quarters and above, else cut by six
/// jittered alternating runs starting at the drawn phase.
pub open spec fn cell_action_spec(
    tone: int,
    dash_size: int,
    size_draw: int,
    jitters: Seq<int>,
    phase: int,
) -> CellActionM {
    if tone >= SOLID_TONE {
        CellActionM::Solid
    } else {
        let dash_px = dash_px_spec(dash_size, size_draw);
        CellActionM::Dashed(
            DashPatternM {
                lens: Seq::new(6, |i: int| dash_len_spec(tone, dash_px, jitters, i)),
                phase,
            },
        )
    }
}

/// Builds the dash decision of one cell from its tone and draws.
pub fn cell_action(
    tone: i64,
    dash_size: i64,
    size_draw: i64,
    jitters: &Vec<i64>,
    phase: i64,
) -> (act: CellAction)
    requires
        in01(tone as int),
        1 <= dash_size <= COORD_LIMIT,
        8000 <= size_draw <= 12000,
        jitters@.len() == 6,
        forall|i: int| 0 <= i < 6 ==> 0 <= #[trigger] jitters@[i] <= 2 * ONE,
        0 <= phase < 5 * ONE,
    ensures
        act@ == cell_action_spec(
            tone as int,
            dash_size as int,
            size_draw as int,
            jitters@.map_values(|x: i64| x as int),
            phase as int,
        ),
        (tone >= SOLID_TONE) == (act matches CellAction::Solid),
{
    if tone >= SOLID_TONE {
        return CellAction::Solid;
    }
    proof {
        assert(0 <= (dash_size as int) * (size_draw as int) <= 240000000000)
            by (nonlinear_arith)
            requires
                1 <= dash_size as int <= 20000000 && 8000 <= size_draw as int <= 12000,
        ;
        lemma_cdiv_upper((dash_size as int) * (size_draw as int), ONE as int);
        lemma_div_is_ordered((dash_size as int) * (size_draw as int), 240000000000, ONE as int);
    }
    let dash_px = fx_mul_up(dash_size, size_draw);
    proof {
        assert(0 <= (tone as int) * (dash_px as int) <= 300000000000 && 0 <= 2 * (ONE
            - tone as int) * (dash_px as int) <= 600000000000) by (nonlinear_arith)
            requires
                0 <= tone as int <= 10000 && 0 <= dash_px as int <= 24000001 && ONE
                    == 10000i64,
        ;
        lemma_cdiv_upper((tone as int) * (dash_px as int), ONE as int);
        lemma_div_is_ordered((tone as int) * (dash_px as int), 300000000000, ONE as int);
        lemma_cdiv_upper(2 * (ONE as int - tone as int) * (dash_px as int), ONE as int);
        lemma_div_is_ordered(
            2 * (ONE as int - tone as int) * (dash_px as int),
            600000000000,
            ONE as int,
        );
    }
    let on_len = fx_mul_up(tone, dash_px);
    let off_len = fx_mul_up(2 * (ONE - tone), dash_px);
    let mut lens: Vec<i64> = Vec::new();
    let mut i: usize = 0;
    while i < 6
        invariant
            0 <= i <= 6,
            in01(tone as int),
            0 <= dash_px <= 24000001,
            0 <= on_len <= 30000001,
            0 <= off_len <= 60000001,
            dash_px == dash_px_spec(dash_size as int, size_draw as int),
            on_len == dash_on_spec(tone as int, dash_px as int),
            off_len == dash_off_spec(tone as int, dash_px as int),
            jitters@.len() == 6,
            forall|k: int| 0 <= k < 6 ==> 0 <= #[trigger] jitters@[k] <= 2 * ONE,
            lens@.len() == i,
            forall|k: int|
                0 <= k < i ==> #[trigger] lens@[k] as int == dash_len_spec(
                    tone as int,
                    dash_px as int,
                    jitters@.map_values(|x: i64| x as int),
                    k,
                ),
        decreases 6 - i,
    {
        let base = if i % 2 == 0 {
            on_len
        } else {
            off_len
        };
        proof {
            assert(0 <= (base as int) * (jitters@[i as int] as int) <= 1200000020000)
                by (nonlinear_arith)
                requires
                    0 <= base as int <= 60000001 && 0 <= jitters@[i as int] as int <= 20000,
            ;
        }
        let entry = fx_mul_up(base, jitters[i]);
        lens.push(entry);
        i = i + 1;
    }
    proof {
        assert(lens@.map_values(|x: i64| x as int) =~= Seq::new(
            6,
            |k: int|
                dash_len_spec(
                    tone as int,
                    dash_px as int,
                    jitters@.map_values(|x: i64| x as int),
                    k,
                ),
        ));
    }
    CellAction::Dashed(DashPattern { lens, phase })
}

/// The dash pattern always has exactly six entries, alternating
/// on/off, and both the base lengths and every jittered entry stay
/// positive whenever the tone and every jitter draw are positive.
/// (At tone zero, or with a jitter draw of zero under full dash
/// randomness, an entry may legitimately vanish; those inputs are
/// excluded here.)
pub proof fn lemma_dash_entries_positive(
    tone: int,
    dash_size: int,
    size_draw: int,
    jitters: Seq<int>,
    phase: int,
)
    requires
        1 <= tone < SOLID_TONE,
        1 <= dash_size,
        8000 <= size_draw <= 12000,
        jitters.len() == 6,
        forall|i: int| 0 <= i < 6 ==> 1 <= #[trigger] jitters[i],
    ensures
        cell_action_spec(tone, dash_size, size_draw, jitters, phase) matches CellActionM::Dashed(
            d,
        ) && d.lens.len() == 6 && (forall|i: int| 0 <= i < 6 ==> #[trigger] d.lens[i] >= 1),
        dash_on_spec(tone, dash_px_spec(dash_size, size_draw)) >= 1,
        dash_off_spec(tone, dash_px_spec(dash_size, size_draw)) >= 1,
{
    let dash_px = dash_px_spec(dash_size, size_draw);
    assert(dash_size * size_draw >= 1) by (nonlinear_arith)
        requires
            1 <= dash_size && 8000 <= size_draw,
    ;
    lemma_cdiv_pos(dash_size * size_draw, ONE as int);
    assert(tone * dash_px >= 1 && 2 * (ONE - tone) * dash_px >= 1) by (nonlinear_arith)
        requires
            1 <= tone && tone < 7500 && 1 <= dash_px && ONE == 10000i64,
    ;
    lemma_cdiv_pos(tone * dash_px, ONE as int);
    lemma_cdiv_pos(2 * (ONE - tone) * dash_px, ONE as int);
    match cell_action_spec(tone, dash_size, size_draw, jitters, phase) {
        CellActionM::Dashed(d) => {
            assert forall|i: int| 0 <= i < 6 implies #[trigger] d.lens[i] >= 1 by {
                let base = if i % 2 == 0 {
                    dash_on_spec(tone, dash_px)
                } else {
                    dash_off_spec(tone, dash_px)
                };
                assert(base * jitters[i] >= 1) by (nonlinear_arith)
                    requires
                        base >= 1 && jitters[i] >= 1,
                ;
                lemma_cdiv_pos(base * jitters[i], ONE as int);
            }
        },
        CellActionM::Solid => {},
    }
}

/// The dash draws of one cell, consumed only when the cell is dashed:
/// the period scale in `[0.8, 1.2]`, six entry jitters, and the cut's
/// phase in `[0, 5)`.
#[derive(Clone, PartialEq, Eq, Debug)]
pub struct DashDraws {
    pub size_draw: i64,
    pub jitters: Vec<i64>,
    pub phase: i64,
}

/// The model of a cell's dash draws.
pub ghost struct DashDrawsM {
    pub size_draw: int,
    pub jitters: Seq<int>,
    pub phase: int,
}

impl View for DashDraws {
    type V = DashDrawsM;

    open spec fn view(&self) -> DashDrawsM {
        DashDrawsM {
            size_draw: self.size_draw as int,
            jitters: self.jitters@.map_values(|x: i64| x as int),
            phase: self.phase as int,
        }
    }
}

/// Everything one hex cell needs from outside: indices, the cell
/// center, the noise sample at the (offset) center, the band jitter
/// draw, and the dash draws where the cell's tone calls for them.
#[derive(Clone, PartialEq, Eq, Debug)]
pub struct HexCellRec {
    pub column: usize,
    pub row: usize,
    pub center: Pt,
    pub noise_val: i64,
    pub color_jitter: i64,
    pub dash: Option<DashDraws>,
}

/// The model of a hex cell record.
pub ghost struct HexCellRecM {
    pub column: int,
    pub row: int,
    pub center: PtM,
    pub noise_val: int,
    pub color_jitter: int,
    pub dash: Option<DashDrawsM>,
}

impl View for HexCellRec {
    type V = HexCellRecM;

    open spec fn view(&self) -> HexCellRecM {
        HexCellRecM {
            column: self.column as int,
            row: self.row as int,
            center: self.center@,
            noise_val: self.noise_val as int,
            color_jitter: self.color_jitter as int,
            dash: match self.dash {
                Option::Some(d) => Option::Some(d@),
                Option::None => Option::None,
            },
        }
    }
}

/// The tone of a cell record on a given page.
pub open spec fn hex_tone_of(p: HexParams, page_w: int, page_h: int, rec: HexCellRecM) -> int {
    let u = unit_pos_spec(rec.center.x, page_w);
    let v = unit_pos_spec(rec.center.y, page_h);
    tone_spec(
        rec.noise_val,
        p.noise_gain as int,
        p.noise_offset as int,
        ramp_spec(u, v, p.ramp_offset as int, p.ramp_gain as int),
    )
}

/// Whether a record is within the builder's working range and
/// carries dash draws exactly where its tone calls for them.
pub open spec fn hex_rec_wf(p: HexParams, page_w: int, page_h: int, rec: HexCellRecM) -> bool {
    0 <= rec.column <= 10000 && 0 <= rec.row <= 10000 && 0 <= rec.center.x <= page_w && 0
        <= rec.center.y <= page_h && -DIR_IN_MAX <= rec.noise_val <= DIR_IN_MAX && -2000
        <= rec.color_jitter <= 2000 && (match rec.dash {
        Option::Some(d) => d.jitters.len() == 6 && (forall|i: int|
            0 <= i < 6 ==> 0 <= #[trigger] d.jitters[i] <= 2 * ONE) && 8000 <= d.size_draw
            <= 12000 && 0 <= d.phase < 5 * ONE,
        Option::None => hex_tone_of(p, page_w, page_h, rec) >= SOLID_TONE,
    })
}

/// What one processed cell emits: its pen, where the grid is wide
/// enough for banding, and the fate of its outline.
#[derive(Clone, PartialEq, Eq, Debug)]
pub struct HexCellOut {
    pub pen: Option<Pen>,
    pub action: CellAction,
}

/// The model of a cell's output.
pub ghost struct HexCellOutM {
    pub pen: Option<Pen>,
    pub action: CellActionM,
}

impl View for HexCellOut {
    type V = HexCellOutM;

    open spec fn view(&self) -> HexCellOutM {
        HexCellOutM { pen: self.pen, action: self.action@ }
    }
}

/// Everything one cell emits, as a pure function of its record.
pub open spec fn hex_cell_spec(p: HexParams, page_w: int, page_h: int, rec: HexCellRecM)
    -> HexCellOutM {
    let tone = hex_tone_of(p, page_w, page_h, rec);
    let pen = if p.columns > 1 {
        Option::Some(band_spec(rec.column, p.columns as int, rec.color_jitter))
    } else {
        Option::None
    };
    let action = match rec.dash {
        Option::Some(d) => cell_action_spec(tone, p.dash_size as int, d.size_draw, d.jitters, d.phase),
        Option::None => CellActionM::Solid,
    };
    HexCellOutM { pen, action }
}

/// Processes one hex cell: tone, banding and the dash decision.  The
/// output is pinned exactly by `hex_cell_spec`.
pub fn hex_cell_out(p: &HexParams, page_w: i64, page_h: i64, rec: &HexCellRec) -> (out: HexCellOut)
    requires
        hex_params_wf(*p),
        1 <= page_w <= COORD_LIMIT,
        1 <= page_h <= COORD_LIMIT,
        hex_rec_wf(*p, page_w as int, page_h as int, rec@),
    ensures
        out@ == hex_cell_spec(*p, page_w as int, page_h as int, rec@),
        (hex_tone_of(*p, page_w as int, page_h as int, rec@) >= SOLID_TONE) == (out.action
            matches CellAction::Solid),
{
    let u = unit_pos(rec.center.x, page_w);
    let v = unit_pos(rec.center.y, page_h);
    let ramp = ramp_value(u, v, p.ramp_offset, p.ramp_gain);
    let tone = tone_value(rec.noise_val, p.noise_gain, p.noise_offset, ramp);
    let pen = if band_wanted(p.columns) {
        Option::Some(color_band(rec.column, p.columns, rec.color_jitter))
    } else {
        Option::None
    };
    let action = match &rec.dash {
        Option::Some(d) => {
            proof {
                assert(rec@.dash == Option::Some(d@));
                assert forall|i: int| 0 <= i < 6 implies 0 <= #[trigger] d.jitters@[i] <= 2
                    * ONE by {
                    assert(d@.jitters[i] == d.jitters@[i] as int);
                }
            }
            cell_action(tone, p.dash_size, d.size_draw, &d.jitters, d.phase)
        },
        Option::None => CellAction::Solid,
    };
    HexCellOut { pen, action }
}

/// Runs the generator over all cells: the pattern driver.  One output
/// per cell, in traversal order, each pinned by `hex_cell_spec`: a
/// run is a pure function of the records handed in.
pub fn hex_pattern(p: &HexParams, page_w: i64, page_h: i64, recs: &Vec<HexCellRec>) -> (out: Vec<HexCellOut>)
    requires
        hex_params_wf(*p),
        1 <= page_w <= COORD_LIMIT,
        1 <= page_h <= COORD_LIMIT,
        forall|i: int|
            0 <= i < recs@.len() ==> hex_rec_wf(*p, page_w as int, page_h as int, #[trigger] recs@[i]@),
    ensures
        out@.len() == recs@.len(),
        forall|i: int|
            0 <= i < recs@.len() ==> #[trigger] out@[i]@ == hex_cell_spec(
                *p,
                page_w as int,
                page_h as int,
                recs@[i]@,
            ),
{
    let mut out: Vec<HexCellOut> = Vec::new();
    let mut i: usize = 0;
    while i < recs.len()
        invariant
            hex_params_wf(*p),
            1 <= page_w <= COORD_LIMIT,
            1 <= page_h <= COORD_LIMIT,
            forall|k: int|
                0 <= k < recs@.len() ==> hex_rec_wf(
                    *p,
                    page_w as int,
                    page_h as int,
                    #[trigger] recs@[k]@,
                ),
            0 <= i <= recs@.len(),
            out@.len() == i,
            forall|k: int|
                0 <= k < i ==> #[trigger] out@[k]@ == hex_cell_spec(
                    *p,
                    page_w as int,
                    page_h as int,
                    recs@[k]@,
                ),
        decreases recs@.len() - i,
    {
        let o = hex_cell_out(p, page_w, page_h, &recs[i]);
        out.push(o);
        i = i + 1;
    }
    out
}

/// Two runs with the same parameters, page and records emit the same
/// outputs: with `hex_pattern`'s contract, a fixed seed reproduces
/// the output exactly.
pub proof fn lemma_hex_deterministic(
    p1: HexParams,
    w1: int,
    h1: int,
    rec1: HexCellRecM,
    p2: HexParams,
    w2: int,
    h2: int,
    rec2: HexCellRecM,
)
    requires
        p1 == p2,
        w1 == w2,
        h1 == h2,
        rec1 == rec2,
    ensures
        hex_cell_spec(p1, w1, h1, rec1) == hex_cell_spec(p2, w2, h2, rec2),
{
}

/// The noise coordinate of a hex cell: the center, shifted by the
/// run's random offset, scaled by the noise frequency.
pub fn hex_noise_coords(center: Pt, off_x: i64, off_y: i64, frequency: i64) -> (c: Pt)
    requires
        0 <= center.x <= COORD_LIMIT,
        0 <= center.y <= COORD_LIMIT,
        0 <= off_x <= 100000000,
        0 <= off_y <= 100000000,
        0 <= frequency <= ONE,
    ensures
        c@.x == tdiv((center.x + off_x) * frequency, ONE as int),
        c@.y == tdiv((center.y + off_y) * frequency, ONE as int),
{
    proof {
        assert(0 <= (center.x as int + off_x as int) * (frequency as int)
            <= 1200000000000 && 0 <= (center.y as int + off_y as int) * (frequency as int)
            <= 1200000000000) by (nonlinear_arith)
            requires
                0 <= center.x as int + off_x as int <= 120000000 && 0 <= center.y as int
                    + off_y as int <= 120000000 && 0 <= frequency as int <= 10000,
        ;
    }
    Pt {
        x: tdiv64((center.x + off_x) * frequency, ONE),
        y: tdiv64((center.y + off_y) * frequency, ONE),
    }
}

} // verus!
