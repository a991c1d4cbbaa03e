//! Tests of the radial-ramp dash builder: clamping, banding, the
//! solid/dash decision and the dash array, plus whole-cell scenarios.

use noisegrid::color::{Ink, Pen};
use noisegrid::fx::ONE;
use noisegrid::geom::Pt;
use noisegrid::hex::{
    band_wanted, cell_action, color_band, hex_cell_out, hex_noise_coords, hex_pattern,
    ramp_value, tone_value, unit_pos, CellAction, DashDraws, HexCellOut, HexCellRec, HexParams,
    SOLID_TONE,
};

#[test]
fn unit_pos_normalizes() {
    assert_eq!(unit_pos(0, 1000), 0);
    assert_eq!(unit_pos(500, 1000), 5000);
    assert_eq!(unit_pos(1000, 1000), ONE);
}

#[test]
fn ramp_clamps_under_extreme_gain() {
    // A page corner under a gain of 100 saturates at one...
    assert_eq!(ramp_value(0, 0, ONE, 1000000), ONE);
    // ...and the page center under a negative offset floors at zero.
    assert_eq!(ramp_value(5000, 5000, -ONE, 1000000), 0);
    // The page center with no offset sits on the midpoint whatever
    // the gain, since the ramp pivots around one half.
    assert_eq!(ramp_value(5000, 5000, 5000, 0), 5000);
}

#[test]
fn tone_clamps_under_extreme_gain_and_offset() {
    assert_eq!(tone_value(80000, 1000000, ONE, ONE), 0);
    assert_eq!(tone_value(-80000, 1000000, -ONE, ONE), ONE);
    // Gain zero and offset zero leave the tone at one.
    assert_eq!(tone_value(12345, 0, 0, ONE), ONE);
}

#[test]
fn tone_formula_exact_value() {
    // gain 1.0, sample 1.0, offset 0, ramp 0.5: tone = 1 - 0.5 = 0.5.
    assert_eq!(tone_value(ONE, ONE, 0, 5000), 5000);
}

#[test]
fn band_buckets_columns_left_to_right() {
    assert!(band_wanted(2));
    assert!(!band_wanted(1));
    assert_eq!(color_band(0, 16, 0), Pen { layer: 1, color: Ink::DarkRed });
    assert_eq!(color_band(8, 16, 0), Pen { layer: 2, color: Ink::Red });
    assert_eq!(color_band(15, 16, 0), Pen { layer: 3, color: Ink::Gold });
    // The boundary value itself falls into the next band, and the
    // jitter can move a cell across it.
    assert_eq!(color_band(5, 16, 0), Pen { layer: 2, color: Ink::Red });
    assert_eq!(color_band(5, 16, -2000), Pen { layer: 1, color: Ink::DarkRed });
    assert_eq!(color_band(15, 16, -2000), Pen { layer: 3, color: Ink::Gold });
}

#[test]
fn bright_tone_keeps_outline_solid() {
    let jitters = vec![ONE; 6];
    assert!(matches!(cell_action(9000, 20000, ONE, &jitters, 0), CellAction::Solid));
    assert!(matches!(
        cell_action(SOLID_TONE, 20000, ONE, &jitters, 0),
        CellAction::Solid
    ));
    assert!(matches!(
        cell_action(SOLID_TONE - 1, 20000, ONE, &jitters, 0),
        CellAction::Dashed(_)
    ));
}

#[test]
fn half_tone_dash_lengths_are_exact() {
    // tone 0.5 with a unit size draw: on-runs of half the period,
    // off-runs of a full period.
    let jitters = vec![ONE; 6];
    match cell_action(5000, 20000, ONE, &jitters, 0) {
        CellAction::Dashed(d) => {
            assert_eq!(d.lens, vec![10000, 20000, 10000, 20000, 10000, 20000]);
            assert_eq!(d.phase, 0);
        }
        CellAction::Solid => panic!("expected a dash pattern"),
    }
}

#[test]
fn dash_array_has_six_positive_entries() {
    // Even at the smallest positive tone, size and jitters, every
    // run keeps at least one raw unit of length.
    let jitters = vec![1; 6];
    match cell_action(1, 1, 8000, &jitters, 0) {
        CellAction::Dashed(d) => {
            assert_eq!(d.lens.len(), 6);
            for len in &d.lens {
                assert!(*len >= 1);
            }
        }
        CellAction::Solid => panic!("expected a dash pattern"),
    }
    // A strongly jittered mid-tone pattern stays positive too.
    let jitters = vec![2000, 18000, 500, 19500, 2000, 18000];
    match cell_action(5000, 21543, 11000, &jitters, 12345) {
        CellAction::Dashed(d) => {
            assert_eq!(d.lens.len(), 6);
            for len in &d.lens {
                assert!(*len >= 1);
            }
        }
        CellAction::Solid => panic!("expected a dash pattern"),
    }
}

fn flat_params() -> HexParams {
    // Ramp gain zero pins the ramp at one half; noise gain one and
    // offset zero make the tone 1 - sample / 2.
    HexParams {
        columns: 1,
        rows: 1,
        cell_size: 20000,
        spacing: 0,
        noise_frequency: 55,
        noise_offset: 0,
        noise_gain: ONE,
        ramp_offset: 0,
        ramp_gain: 0,
        dash_size: 20000,
        dash_randomness: 0,
    }
}

#[test]
fn single_bright_cell_stays_solid() {
    // One hex cell whose stubbed noise fixes the tone at 0.9: the
    // outline is emitted solid, no dash pattern is built, and with a
    // single column no pen is set.
    let p = flat_params();
    // tone = 1 - (-0.8) / 2 = 0.9 exactly... sample -0.8 gives 1.4,
    // clamped; use sample 0.2: tone = 1 - 0.1 = 0.9.
    let rec = HexCellRec {
        column: 0,
        row: 0,
        center: Pt { x: 50000, y: 50000 },
        noise_val: 2000,
        color_jitter: 0,
        dash: None,
    };
    let out = hex_pattern(&p, 100000, 100000, &vec![rec]);
    assert_eq!(out.len(), 1);
    assert_eq!(out[0], HexCellOut { pen: None, action: CellAction::Solid });
}

#[test]
fn single_half_tone_cell_gets_one_dash_cut() {
    // One hex cell whose stubbed noise fixes the tone at 0.5: exactly
    // one dash pattern, with on-runs of half the period and off-runs
    // of a full period.
    let p = flat_params();
    let rec = HexCellRec {
        column: 0,
        row: 0,
        center: Pt { x: 50000, y: 50000 },
        noise_val: ONE,
        color_jitter: 0,
        dash: Some(DashDraws { size_draw: ONE, jitters: vec![ONE; 6], phase: 30000 }),
    };
    let out = hex_pattern(&p, 100000, 100000, &vec![rec]);
    assert_eq!(out.len(), 1);
    match &out[0].action {
        CellAction::Dashed(d) => {
            assert_eq!(d.lens, vec![10000, 20000, 10000, 20000, 10000, 20000]);
            assert_eq!(d.phase, 30000);
        }
        CellAction::Solid => panic!("expected a dash pattern"),
    }
}

#[test]
fn banding_applies_independently_of_tone() {
    let mut p = flat_params();
    p.columns = 16;
    let rec = HexCellRec {
        column: 15,
        row: 0,
        center: Pt { x: 50000, y: 50000 },
        noise_val: 2000,
        color_jitter: 0,
        dash: None,
    };
    let out = hex_cell_out(&p, 100000, 100000, &rec);
    assert_eq!(out.pen, Some(Pen { layer: 3, color: Ink::Gold }));
    assert!(matches!(out.action, CellAction::Solid));
}

#[test]
fn unused_dash_draws_leave_outline_solid() {
    // A bright cell ignores dash draws even if they were made: the
    // solid decision depends on the tone alone.
    let p = flat_params();
    let rec = HexCellRec {
        column: 0,
        row: 0,
        center: Pt { x: 50000, y: 50000 },
        noise_val: 2000,
        color_jitter: 0,
        dash: Some(DashDraws { size_draw: ONE, jitters: vec![ONE; 6], phase: 0 }),
    };
    let out = hex_cell_out(&p, 100000, 100000, &rec);
    assert!(matches!(out.action, CellAction::Solid));
}

#[test]
fn same_records_reproduce_same_cells() {
    let p = flat_params();
    let mk = || {
        vec![HexCellRec {
            column: 0,
            row: 0,
            center: Pt { x: 42000, y: 31000 },
            noise_val: ONE,
            color_jitter: 0,
            dash: Some(DashDraws {
                size_draw: 11000,
                jitters: vec![9000, 11000, 10000, 12000, 8000, 10000],
                phase: 777,
            }),
        }]
    };
    let a = hex_pattern(&p, 100000, 100000, &mk());
    let b = hex_pattern(&p, 100000, 100000, &mk());
    assert_eq!(a, b);
}

#[test]
fn noise_coords_scale_offset_centers() {
    let c = hex_noise_coords(Pt { x: 50000, y: 30000 }, 1000, 2000, 55);
    assert_eq!(c, Pt { x: 51000 * 55 / 10000, y: 32000 * 55 / 10000 });
}

#[test]
fn stock_parameters() {
    let p = HexParams::default();
    assert_eq!(p.columns, 16);
    assert_eq!(p.rows, 13);
    assert_eq!(p.cell_size, 158740);
    assert_eq!(p.noise_frequency, 55);
    assert_eq!(p.dash_randomness, 8000);
}
