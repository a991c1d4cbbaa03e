//! Tests of the flow-field line builder: direction fallback, clip
//! correctness, stride gating, weights, and whole-cell scenarios.

use noisegrid::color::{ColorMode, Ink, Pen};
use noisegrid::flow::{
    build_cell_strokes, cell_selected, color_weight, flow_noise_coords, flow_passes,
    flow_pattern, grid_origin, half_diag, rect_grid_pos, skip_weight, steps_count, FlowCell,
    FlowCellRec, FlowParams, FlowPass,
};
use noisegrid::fx::ONE;
use noisegrid::geom::{clip_seg, direction, perp, Pt, Rect, Seg};

#[test]
fn direction_zero_sample_falls_back() {
    // The all-zero noise sample takes the documented fallback instead
    // of an undefined normalization.
    assert_eq!(direction(0, 0), Pt { x: ONE, y: 0 });
}

#[test]
fn direction_is_unit_on_axes_and_triples() {
    assert_eq!(direction(5000, 0), Pt { x: ONE, y: 0 });
    assert_eq!(direction(0, -1234), Pt { x: 0, y: -ONE });
    // A 3-4-5 triple normalizes exactly on the fixed-point raster.
    let d = direction(3000, 4000);
    assert_eq!(d, Pt { x: 6000, y: 8000 });
    assert_eq!(d.x * d.x + d.y * d.y, ONE * ONE);
}

#[test]
fn direction_near_unit_everywhere() {
    for (dx, dy) in [(1, 0), (1, 1), (-17, 80000), (333, -7777), (80000, 80000)] {
        let d = direction(dx, dy);
        let n2 = d.x * d.x + d.y * d.y;
        assert!(n2 >= ONE * ONE - 4 * ONE, "{dx},{dy}: {n2}");
        assert!(n2 <= ONE * ONE + 3 * ONE, "{dx},{dy}: {n2}");
    }
}

#[test]
fn perp_is_quarter_turn() {
    assert_eq!(perp(Pt { x: 3, y: 4 }), Pt { x: -4, y: 3 });
}

#[test]
fn clip_keeps_inside_segment() {
    let r = Rect { x0: 0, y0: 0, x1: 20, y1: 20 };
    let s = Seg { a: Pt { x: 1, y: 2 }, b: Pt { x: 19, y: 18 } };
    assert_eq!(clip_seg(s, r), Some(s));
}

#[test]
fn clip_cuts_crossing_segment() {
    let r = Rect { x0: 0, y0: 0, x1: 20, y1: 20 };
    let s = Seg { a: Pt { x: -10, y: 5 }, b: Pt { x: 30, y: 5 } };
    let c = clip_seg(s, r).unwrap();
    assert_eq!(c, Seg { a: Pt { x: 0, y: 5 }, b: Pt { x: 20, y: 5 } });
}

#[test]
fn clip_drops_outside_segment() {
    let r = Rect { x0: 0, y0: 0, x1: 20, y1: 20 };
    let s = Seg { a: Pt { x: -30, y: 5 }, b: Pt { x: -10, y: 5 } };
    assert_eq!(clip_seg(s, r), None);
    let below = Seg { a: Pt { x: 5, y: 25 }, b: Pt { x: 15, y: 40 } };
    assert_eq!(clip_seg(below, r), None);
}

#[test]
fn clip_stays_in_box() {
    let r = Rect { x0: 0, y0: 0, x1: 100, y1: 100 };
    for (ax, ay, bx, by) in [(-50, -50, 150, 150), (-7, 3, 90, 170), (50, -90, 55, 260)] {
        let s = Seg { a: Pt { x: ax, y: ay }, b: Pt { x: bx, y: by } };
        if let Some(c) = clip_seg(s, r) {
            for p in [c.a, c.b] {
                assert!(0 <= p.x && p.x <= 100 && 0 <= p.y && p.y <= 100);
            }
        }
    }
}

#[test]
fn stride_gate_is_exact() {
    // stride 2, offset 0: even index sums only.
    assert!(cell_selected(0, 0, 2, 0));
    assert!(!cell_selected(1, 0, 2, 0));
    assert!(!cell_selected(0, 1, 2, 0));
    assert!(cell_selected(1, 1, 2, 0));
    // stride 2, offset 1: odd index sums only.
    assert!(!cell_selected(0, 0, 2, 1));
    assert!(cell_selected(1, 0, 2, 1));
    assert!(cell_selected(2, 1, 2, 1));
    assert!(!cell_selected(3, 1, 2, 1));
    // every cell passes a stride of one.
    assert!(cell_selected(7, 8, 1, 0));
}

#[test]
fn weights_are_clamped_probabilities() {
    assert_eq!(skip_weight(0, 1000), 0);
    assert_eq!(skip_weight(500, 1000), 2500);
    assert_eq!(skip_weight(1000, 1000), ONE);
    assert_eq!(skip_weight(2000, 1000), ONE);
    assert_eq!(color_weight(500, 1000), 5000);
    assert_eq!(color_weight(-5, 1000), 0);
    assert_eq!(color_weight(2000, 1000), ONE);
}

#[test]
fn geometry_helpers() {
    assert_eq!(half_diag(10000), 7071);
    assert_eq!(steps_count(7071, 7071), 1);
    assert_eq!(steps_count(7071, 10000), 1);
    assert_eq!(steps_count(7071, 3000), 3);
    assert_eq!(steps_count(0, 3000), 0);
    let pos = rect_grid_pos(3, 2, 100, 10);
    assert_eq!(pos, Pt { x: 330, y: 220 });
}

fn one_cell_pass(mode: ColorMode) -> FlowPass {
    FlowPass {
        gutter: 0,
        cell_size: 20000,
        offset: 20000,
        stride: 2,
        stride_offset: 0,
        mode,
        shift: Pt { x: 0, y: 0 },
    }
}

#[test]
fn wide_offset_emits_single_center_line() {
    // With the spacing at least the half diagonal only the center
    // line survives the clip, and it passes through the cell center.
    let pass = one_cell_pass(ColorMode::Fixed(Pen { layer: 1, color: Ink::Red }));
    let rec = FlowCellRec {
        cell: FlowCell { column: 0, row: 0, pos: Pt { x: 0, y: 0 } },
        dx: 5000,
        dy: 0,
        skip: false,
        picks: Vec::new(),
    };
    let out = build_cell_strokes(&pass, &rec);
    assert_eq!(out.len(), 1);
    let s = out[0].seg;
    assert_eq!(s, Seg { a: Pt { x: 0, y: 10000 }, b: Pt { x: 20000, y: 10000 } });
    let mid = Pt { x: (s.a.x + s.b.x) / 2, y: (s.a.y + s.b.y) / 2 };
    assert_eq!(mid, Pt { x: 10000, y: 10000 });
}

#[test]
fn fixed_mode_pins_pen_and_consumes_no_picks() {
    let pen = Pen { layer: 1, color: Ink::Red };
    let pass = one_cell_pass(ColorMode::Fixed(pen));
    let rec = FlowCellRec {
        cell: FlowCell { column: 0, row: 0, pos: Pt { x: 0, y: 0 } },
        dx: 3000,
        dy: 4000,
        skip: false,
        picks: Vec::new(),
    };
    let out = build_cell_strokes(&pass, &rec);
    assert!(!out.is_empty());
    for s in &out {
        assert_eq!(s.pen, pen);
    }
}

#[test]
fn gradient_mode_follows_picks() {
    let first = Pen { layer: 2, color: Ink::Red };
    let second = Pen { layer: 3, color: Ink::DarkRed };
    let pass = one_cell_pass(ColorMode::Gradient(first, second));
    // Three candidate lines, so three stored picks; only the center
    // line survives and it reads the second pick.
    let mk = |picks: Vec<bool>| FlowCellRec {
        cell: FlowCell { column: 0, row: 0, pos: Pt { x: 0, y: 0 } },
        dx: 5000,
        dy: 0,
        skip: false,
        picks,
    };
    let out = flow_pattern(&pass, &vec![mk(vec![false, true, false])]);
    assert_eq!(out.len(), 1);
    assert_eq!(out[0].pen, first);
    let out = flow_pattern(&pass, &vec![mk(vec![true, false, true])]);
    assert_eq!(out[0].pen, second);
}

#[test]
fn gate_and_skip_silence_cells() {
    let pass = one_cell_pass(ColorMode::Fixed(Pen { layer: 1, color: Ink::Gold }));
    // Odd index sum: stride-gated out (no picks are consumed).
    let gated = FlowCellRec {
        cell: FlowCell { column: 1, row: 0, pos: Pt { x: 0, y: 0 } },
        dx: 5000,
        dy: 0,
        skip: false,
        picks: Vec::new(),
    };
    // Selected but skipped by its weighted draw.
    let skipped = FlowCellRec {
        cell: FlowCell { column: 0, row: 0, pos: Pt { x: 0, y: 0 } },
        dx: 5000,
        dy: 0,
        skip: true,
        picks: Vec::new(),
    };
    let out = flow_pattern(&pass, &vec![gated, skipped]);
    assert_eq!(out.len(), 0);
}

#[test]
fn same_records_reproduce_same_strokes() {
    let pass = one_cell_pass(ColorMode::Gradient(
        Pen { layer: 2, color: Ink::Red },
        Pen { layer: 3, color: Ink::DarkRed },
    ));
    let mk = || {
        vec![
            FlowCellRec {
                cell: FlowCell { column: 0, row: 0, pos: Pt { x: 0, y: 0 } },
                dx: 3000,
                dy: 4000,
                skip: false,
                picks: vec![true, false, true],
            },
            FlowCellRec {
                cell: FlowCell { column: 1, row: 1, pos: Pt { x: 20000, y: 20000 } },
                dx: -2000,
                dy: 700,
                skip: false,
                picks: vec![false, false, true],
            },
        ]
    };
    let a = flow_pattern(&pass, &mk());
    let b = flow_pattern(&pass, &mk());
    assert_eq!(a, b);
    assert!(!a.is_empty());
}

#[test]
fn strokes_stay_inside_their_cell() {
    let pass = FlowPass {
        gutter: 0,
        cell_size: 20000,
        offset: 2000,
        stride: 1,
        stride_offset: 0,
        mode: ColorMode::Fixed(Pen { layer: 1, color: Ink::Red }),
        shift: Pt { x: 0, y: 0 },
    };
    let rec = FlowCellRec {
        cell: FlowCell { column: 2, row: 2, pos: Pt { x: 40000, y: 40000 } },
        dx: 1234,
        dy: -4321,
        skip: false,
        picks: Vec::new(),
    };
    let out = build_cell_strokes(&pass, &rec);
    assert!(out.len() > 1);
    for s in &out {
        for p in [s.seg.a, s.seg.b] {
            assert!(40000 <= p.x && p.x <= 60000, "{p:?}");
            assert!(40000 <= p.y && p.y <= 60000, "{p:?}");
        }
    }
}

#[test]
fn stock_passes_and_layout() {
    let params = FlowParams::default();
    assert_eq!(params.base_cell_size, 205000);
    assert_eq!(params.columns, 25);
    assert_eq!(params.rows, 16);
    let (first, second) = flow_passes(&params);
    assert_eq!(first.stride, 2);
    assert_eq!(first.stride_offset, 0);
    assert_eq!(first.gutter, 0);
    assert!(matches!(first.mode, ColorMode::Gradient(_, _)));
    assert_eq!(second.stride_offset, 1);
    assert_eq!(second.gutter, 205000 / 4);
    assert_eq!(second.cell_size, 205000 - 205000 / 4);
    assert_eq!(second.shift, Pt { x: 51250, y: 51250 });
    assert!(matches!(second.mode, ColorMode::Fixed(_)));
    // A page wider than the grid centers it with equal margins.
    let o = grid_origin(6_000_000, 4_000_000, &params);
    assert_eq!(o.x, (6_000_000 - 25 * 205000) / 2);
    assert_eq!(o.y, (4_000_000 - 16 * 205000) / 2);
}

#[test]
fn noise_coords_are_cross_offset() {
    let (a, b) = flow_noise_coords(3, 5, 100, 70000, 90000);
    assert_eq!(a, Pt { x: 300, y: 500 + 70000 });
    assert_eq!(b, Pt { x: 300 + 90000, y: 500 });
}
